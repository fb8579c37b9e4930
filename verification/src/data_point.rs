//! Data points and the table that holds them, one row per id.

use vstd::prelude::*;

verus! {

/// One measurement.
#[derive(Debug, PartialEq, Eq)]
pub struct DataPoint {
    /// The key of the row.
    pub id: u64,
    /// When the row was inserted, in microseconds since the Unix epoch.
    pub timestamp: i64,
    /// The name of the category that the measurement belongs to.
    pub category: String,
    /// The measurement, as the bit pattern of an IEEE 754 binary64 number.
    pub value: u64,
}

/// The mathematical value of a [`DataPoint`].
pub struct DataPointView {
    pub id: u64,
    pub timestamp: i64,
    pub category: Seq<char>,
    pub value: u64,
}

impl View for DataPoint {
    type V = DataPointView;

    open spec fn view(&self) -> DataPointView {
        DataPointView {
            id: self.id,
            timestamp: self.timestamp,
            category: self.category@,
            value: self.value,
        }
    }
}

impl Clone for DataPoint {
    fn clone(&self) -> (copy: Self)
        ensures
            copy == *self,
    {
        DataPoint {
            id: self.id,
            timestamp: self.timestamp,
            category: self.category.clone(),
            value: self.value,
        }
    }
}

impl DataPointView {
    /// The row with its category and its value overwritten by those that are given.
    pub open spec fn amended(self, category: Option<Seq<char>>, value: Option<u64>) -> DataPointView {
        DataPointView {
            id: self.id,
            timestamp: self.timestamp,
            category: match category {
                Some(c) => c,
                None => self.category,
            },
            value: match value {
                Some(v) => v,
                None => self.value,
            },
        }
    }

    /// The row moved to the category `to` if it belongs to `from`.
    pub open spec fn moved(self, from: Seq<char>, to: Seq<char>) -> DataPointView {
        if self.category == from {
            self.amended(Some(to), None)
        } else {
            self
        }
    }
}

/// Some row of `rows` has the id `id`.
pub open spec fn has_point(rows: Seq<DataPointView>, id: u64) -> bool {
    exists|i: int| 0 <= i < rows.len() && (#[trigger] rows[i]).id == id
}

/// Some row of `rows` belongs to the category `category`.
pub open spec fn has_point_in(rows: Seq<DataPointView>, category: Seq<char>) -> bool {
    exists|i: int| 0 <= i < rows.len() && (#[trigger] rows[i]).category == category
}

/// No two rows of `rows` have the same id.
pub open spec fn unique_ids(rows: Seq<DataPointView>) -> bool {
    forall|i: int, j: int|
        0 <= i < j < rows.len() ==> (#[trigger] rows[i]).id != (#[trigger] rows[j]).id
}

/// `rows` after `row` was offered to it: a row of a new id is added at the
/// end, and a row whose id is taken is refused.
pub open spec fn insert_point(rows: Seq<DataPointView>, row: DataPointView) -> Seq<DataPointView> {
    if has_point(rows, row.id) {
        rows
    } else {
        rows.push(row)
    }
}

/// `rows` with `row` in the place of the row of the same id.
pub open spec fn replace_point(rows: Seq<DataPointView>, row: DataPointView) -> Seq<DataPointView> {
    rows.map_values(
        |p: DataPointView|
            if p.id == row.id {
                row
            } else {
                p
            },
    )
}

/// `rows` with the row of id `id` amended.
pub open spec fn amend_point(
    rows: Seq<DataPointView>,
    id: u64,
    category: Option<Seq<char>>,
    value: Option<u64>,
) -> Seq<DataPointView> {
    rows.map_values(
        |p: DataPointView|
            if p.id == id {
                p.amended(category, value)
            } else {
                p
            },
    )
}

/// `rows` without the rows of id `id`.
pub open spec fn without_point(rows: Seq<DataPointView>, id: u64) -> Seq<DataPointView> {
    rows.filter(|p: DataPointView| p.id != id)
}

/// `rows` without the rows that belong to `category`.
pub open spec fn without_points_in(rows: Seq<DataPointView>, category: Seq<char>) -> Seq<
    DataPointView,
> {
    rows.filter(|p: DataPointView| p.category != category)
}

/// `rows` with every row of the category `from` moved to `to`.
pub open spec fn move_points(rows: Seq<DataPointView>, from: Seq<char>, to: Seq<char>) -> Seq<
    DataPointView,
> {
    rows.map_values(|p: DataPointView| p.moved(from, to))
}

/// A filter keeps the rows in their order: what it keeps are the rows that
/// meet the predicate, each id that it keeps was there before, and unique ids
/// stay unique.
pub proof fn lemma_filter_points(rows: Seq<DataPointView>, keep: spec_fn(DataPointView) -> bool)
    ensures
        forall|i: int|
            0 <= i < rows.filter(keep).len() ==> keep(#[trigger] rows.filter(keep)[i])
                && rows.contains(rows.filter(keep)[i]),
        forall|i: int|
            0 <= i < rows.len() && keep(#[trigger] rows[i]) ==> rows.filter(keep).contains(rows[i]),
        rows.filter(keep).len() <= rows.len(),
        unique_ids(rows) ==> unique_ids(rows.filter(keep)),
    decreases rows.len(),
{
    reveal(Seq::filter);
    let kept = rows.filter(keep);
    if rows.len() > 0 {
        let front = rows.drop_last();
        let last = rows.last();
        let front_kept = front.filter(keep);
        lemma_filter_points(front, keep);
        assert forall|i: int| 0 <= i < kept.len() implies keep(#[trigger] kept[i])
            && rows.contains(kept[i]) by {
            if i < front_kept.len() {
                assert(kept[i] == front_kept[i]);
                assert(front.contains(front_kept[i]));
                let k = choose|k: int| 0 <= k < front.len() && front[k] == front_kept[i];
                assert(rows[k] == kept[i]);
            } else {
                assert(rows[rows.len() - 1] == kept[i]);
            }
        }
        assert forall|i: int| 0 <= i < rows.len() && keep(#[trigger] rows[i]) implies kept.contains(
            rows[i],
        ) by {
            if i < front.len() {
                assert(front[i] == rows[i]);
                assert(front_kept.contains(front[i]));
                let k = choose|k: int| 0 <= k < front_kept.len() && front_kept[k] == front[i];
                assert(kept[k] == rows[i]);
            } else {
                assert(kept[kept.len() - 1] == rows[i]);
            }
        }
        if unique_ids(rows) {
            assert(unique_ids(front)) by {
                assert forall|i: int, j: int| 0 <= i < j < front.len() implies (
                #[trigger] front[i]).id != (#[trigger] front[j]).id by {
                    assert(rows[i].id != rows[j].id);
                }
            }
            assert forall|i: int, j: int| 0 <= i < j < kept.len() implies (#[trigger] kept[i]).id
                != (#[trigger] kept[j]).id by {
                if j < front_kept.len() {
                    assert(front_kept[i].id != front_kept[j].id);
                } else {
                    assert(kept[i] == front_kept[i]);
                    assert(front.contains(front_kept[i]));
                    let k = choose|k: int| 0 <= k < front.len() && front[k] == front_kept[i];
                    assert(rows[k].id != rows[rows.len() - 1].id);
                }
            }
        }
    }
}

/// Removing an id that no row has changes nothing.
pub proof fn lemma_without_absent_point(rows: Seq<DataPointView>, id: u64)
    requires
        !has_point(rows, id),
    ensures
        without_point(rows, id) == rows,
    decreases rows.len(),
{
    reveal(Seq::filter);
    if rows.len() > 0 {
        let front = rows.drop_last();
        assert(!has_point(front, id)) by {
            assert forall|i: int| 0 <= i < front.len() implies (#[trigger] front[i]).id != id by {
                assert(rows[i].id != id);
            }
        }
        lemma_without_absent_point(front, id);
        assert(rows.last().id != id);
        assert(front.push(rows.last()) =~= rows);
    }
}

/// Where ids are unique, removing an id removes the one row that has it.
pub proof fn lemma_without_point_at(rows: Seq<DataPointView>, id: u64, at: int)
    requires
        unique_ids(rows),
        0 <= at < rows.len(),
        rows[at].id == id,
    ensures
        without_point(rows, id) == rows.remove(at),
    decreases rows.len(),
{
    reveal(Seq::filter);
    let front = rows.drop_last();
    if at == rows.len() - 1 {
        assert(!has_point(front, id)) by {
            assert forall|i: int| 0 <= i < front.len() implies (#[trigger] front[i]).id != id by {
                assert(rows[i].id != rows[at].id);
            }
        }
        lemma_without_absent_point(front, id);
        assert(rows.remove(at) =~= front);
    } else {
        assert(rows[at].id != rows[rows.len() - 1].id);
        assert(unique_ids(front)) by {
            assert forall|i: int, j: int| 0 <= i < j < front.len() implies (#[trigger] front[i]).id
                != (#[trigger] front[j]).id by {
                assert(rows[i].id != rows[j].id);
            }
        }
        lemma_without_point_at(front, id, at);
        assert(front.remove(at).push(rows.last()) =~= rows.remove(at));
    }
}

/// The data points of the store: an unordered collection with one row per id.
pub struct DataPointTable {
    rows: Vec<DataPoint>,
}

impl View for DataPointTable {
    type V = Seq<DataPointView>;

    closed spec fn view(&self) -> Seq<DataPointView> {
        self.rows@.map_values(|p: DataPoint| p@)
    }
}

impl DataPointTable {
    #[verifier::type_invariant]
    spec fn one_row_per_id(self) -> bool {
        unique_ids(self@)
    }

    /// An empty table.
    pub fn new() -> (table: Self)
        ensures
            table@ == Seq::<DataPointView>::empty(),
    {
        let table = DataPointTable { rows: Vec::new() };
        assert(table@ =~= Seq::<DataPointView>::empty());
        table
    }

    /// The number of rows.
    pub fn len(&self) -> (n: usize)
        ensures
            n == self@.len(),
            unique_ids(self@),
    {
        proof {
            use_type_invariant(self);
        }
        self.rows.len()
    }

    fn position(&self, id: u64) -> (at: Option<usize>)
        ensures
            unique_ids(self@),
            match at {
                Some(i) => i < self@.len() && self@[i as int].id == id,
                None => !has_point(self@, id),
            },
    {
        proof {
            use_type_invariant(self);
        }
        let mut i: usize = 0;
        while i < self.rows.len()
            invariant
                i <= self.rows.len(),
                unique_ids(self@),
                forall|k: int| 0 <= k < i ==> (#[trigger] self@[k]).id != id,
            decreases self.rows.len() - i,
        {
            if self.rows[i].id == id {
                return Some(i);
            }
            i += 1;
        }
        None
    }

    /// Whether a row has the id `id`.
    pub fn contains(&self, id: u64) -> (found: bool)
        ensures
            found == has_point(self@, id),
            unique_ids(self@),
    {
        self.position(id).is_some()
    }

    /// The row of id `id`, if there is one.
    pub fn get(&self, id: u64) -> (row: Option<DataPoint>)
        ensures
            unique_ids(self@),
            match row {
                Some(p) => p@.id == id && self@.contains(p@),
                None => !has_point(self@, id),
            },
    {
        match self.position(id) {
            Some(i) => {
                let p = self.rows[i].clone();
                assert(self@[i as int] == p@);
                Some(p)
            },
            None => None,
        }
    }

    /// Whether a row belongs to `category`.
    pub fn any_in_category(&self, category: &String) -> (found: bool)
        ensures
            found == has_point_in(self@, category@),
            unique_ids(self@),
    {
        proof {
            use_type_invariant(self);
        }
        let mut i: usize = 0;
        while i < self.rows.len()
            invariant
                i <= self.rows.len(),
                unique_ids(self@),
                forall|k: int| 0 <= k < i ==> (#[trigger] self@[k]).category != category@,
            decreases self.rows.len() - i,
        {
            if self.rows[i].category == *category {
                assert(self@[i as int].category == category@);
                return true;
            }
            i += 1;
        }
        false
    }

    /// The rows, in the order of the table.
    pub fn iterate(&self) -> (rows: Vec<DataPoint>)
        ensures
            rows@.map_values(|p: DataPoint| p@) == self@,
            unique_ids(self@),
    {
        proof {
            use_type_invariant(self);
        }
        let mut out: Vec<DataPoint> = Vec::new();
        let mut i: usize = 0;
        while i < self.rows.len()
            invariant
                i <= self.rows.len(),
                out@.len() == i,
                forall|k: int| 0 <= k < i ==> (#[trigger] out@[k])@ == self@[k],
            decreases self.rows.len() - i,
        {
            out.push(self.rows[i].clone());
            i += 1;
        }
        assert(out@.map_values(|p: DataPoint| p@) =~= self@);
        out
    }

    /// Adds `row` unless its id is taken, and says whether it was added.
    pub fn insert(&mut self, row: DataPoint) -> (added: bool)
        ensures
            added == !has_point(old(self)@, row@.id),
            final(self)@ == insert_point(old(self)@, row@),
            unique_ids(final(self)@),
    {
        let ghost before = self@;
        match self.position(row.id) {
            Some(_) => false,
            None => {
                let mut rows: Vec<DataPoint> = Vec::new();
                std::mem::swap(&mut rows, &mut self.rows);
                rows.push(row);
                proof {
                    let after = rows@.map_values(|p: DataPoint| p@);
                    assert(after =~= before.push(row@));
                    assert forall|i: int, j: int| 0 <= i < j < after.len() implies (
                    #[trigger] after[i]).id != (#[trigger] after[j]).id by {
                        if j < before.len() {
                            assert(before[i].id != before[j].id);
                        } else {
                            assert(before[i].id != row@.id);
                        }
                    }
                }
                self.rows = rows;
                true
            },
        }
    }

    /// Puts `row` in the place of the row of the same id and says whether
    /// there was one.
    pub fn update(&mut self, row: DataPoint) -> (existed: bool)
        ensures
            existed == has_point(old(self)@, row@.id),
            final(self)@ == replace_point(old(self)@, row@),
            unique_ids(final(self)@),
    {
        let ghost before = self@;
        let ghost new_row = row@;
        match self.position(row.id) {
            Some(i) => {
                let mut rows: Vec<DataPoint> = Vec::new();
                std::mem::swap(&mut rows, &mut self.rows);
                rows[i] = row;
                proof {
                    let after = rows@.map_values(|p: DataPoint| p@);
                    assert forall|k: int| 0 <= k < before.len() implies #[trigger] after[k]
                        == replace_point(before, new_row)[k] by {
                        if k < i {
                            assert(before[k].id != before[i as int].id);
                        } else if k > i {
                            assert(before[i as int].id != before[k].id);
                        }
                    }
                    assert(after =~= replace_point(before, new_row));
                    assert forall|a: int, b: int| 0 <= a < b < after.len() implies (
                    #[trigger] after[a]).id != (#[trigger] after[b]).id by {
                        assert(before[a].id != before[b].id);
                    }
                }
                self.rows = rows;
                true
            },
            None => {
                assert(before =~= replace_point(before, new_row)) by {
                    assert forall|k: int| 0 <= k < before.len() implies #[trigger] before[k]
                        == replace_point(before, new_row)[k] by {
                        assert(before[k].id != new_row.id);
                    }
                }
                false
            },
        }
    }

    /// Removes the row of id `id` and says whether there was one.
    pub fn delete(&mut self, id: u64) -> (existed: bool)
        ensures
            existed == has_point(old(self)@, id),
            final(self)@ == without_point(old(self)@, id),
            unique_ids(final(self)@),
    {
        let ghost before = self@;
        let at = self.position(id);
        proof {
            lemma_filter_points(before, |p: DataPointView| p.id != id);
        }
        match at {
            Some(i) => {
                let mut rows: Vec<DataPoint> = Vec::new();
                std::mem::swap(&mut rows, &mut self.rows);
                let _ = rows.remove(i);
                proof {
                    lemma_without_point_at(before, id, i as int);
                    assert(rows@.map_values(|p: DataPoint| p@) =~= before.remove(i as int));
                }
                self.rows = rows;
                true
            },
            None => {
                proof {
                    lemma_without_absent_point(before, id);
                }
                false
            },
        }
    }

    /// Removes every row that belongs to `category`.
    pub fn delete_in_category(&mut self, category: &String)
        ensures
            final(self)@ == without_points_in(old(self)@, category@),
            unique_ids(final(self)@),
    {
        proof {
            use_type_invariant(&*self);
        }
        let ghost before = self@;
        let ghost keep = |p: DataPointView| p.category != category@;
        let mut kept: Vec<DataPoint> = Vec::new();
        let mut i: usize = 0;
        while i < self.rows.len()
            invariant
                i <= self.rows.len(),
                self@ == before,
                keep == |p: DataPointView| p.category != category@,
                kept@.map_values(|p: DataPoint| p@) == before.take(i as int).filter(keep),
            decreases self.rows.len() - i,
        {
            proof {
                assert(before.take(i as int + 1) =~= before.take(i as int).push(before[i as int]));
                Seq::lemma_filter_push(before.take(i as int), before[i as int], keep);
            }
            let ghost kept_before = kept@.map_values(|p: DataPoint| p@);
            if self.rows[i].category != *category {
                kept.push(self.rows[i].clone());
                assert(kept@.map_values(|p: DataPoint| p@) =~= kept_before.push(before[i as int]));
            }
            i += 1;
        }
        proof {
            assert(before.take(i as int) =~= before);
            lemma_filter_points(before, keep);
        }
        self.rows = kept;
    }

    /// Moves every row of the category `from` to the category `to`.
    pub fn reassign(&mut self, from: &String, to: &String)
        ensures
            final(self)@ == move_points(old(self)@, from@, to@),
            unique_ids(final(self)@),
    {
        proof {
            use_type_invariant(&*self);
        }
        let ghost before = self@;
        let mut rows: Vec<DataPoint> = Vec::new();
        std::mem::swap(&mut rows, &mut self.rows);
        let mut i: usize = 0;
        while i < rows.len()
            invariant
                i <= rows.len(),
                rows@.len() == before.len(),
                forall|k: int| 0 <= k < i ==> (#[trigger] rows@[k])@ == before[k].moved(from@, to@),
                forall|k: int| i <= k < rows.len() ==> (#[trigger] rows@[k])@ == before[k],
            decreases rows.len() - i,
        {
            if rows[i].category == *from {
                rows[i].category = to.clone();
            }
            i += 1;
        }
        proof {
            let after = rows@.map_values(|p: DataPoint| p@);
            assert(after =~= move_points(before, from@, to@));
            assert forall|a: int, b: int| 0 <= a < b < after.len() implies (#[trigger] after[a]).id
                != (#[trigger] after[b]).id by {
                assert(before[a].id != before[b].id);
            }
        }
        self.rows = rows;
    }
}

} // verus!
