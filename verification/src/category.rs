//! Categories and the table that holds them, one row per name.

use vstd::prelude::*;

verus! {

/// A named group of measurements with its display attributes.
#[derive(Debug, PartialEq, Eq)]
pub struct Category {
    pub name: String,
    pub description: String,
    pub color: String,
}

/// The mathematical value of a [`Category`].
pub struct CategoryView {
    pub name: Seq<char>,
    pub description: Seq<char>,
    pub color: Seq<char>,
}

impl View for Category {
    type V = CategoryView;

    open spec fn view(&self) -> CategoryView {
        CategoryView { name: self.name@, description: self.description@, color: self.color@ }
    }
}

impl Clone for Category {
    fn clone(&self) -> (copy: Self)
        ensures
            copy == *self,
    {
        Category {
            name: self.name.clone(),
            description: self.description.clone(),
            color: self.color.clone(),
        }
    }
}

/// Some row of `rows` carries `name`.
pub open spec fn has_category(rows: Seq<CategoryView>, name: Seq<char>) -> bool {
    exists|i: int| 0 <= i < rows.len() && (#[trigger] rows[i]).name == name
}

/// No two rows of `rows` carry the same name.
pub open spec fn unique_names(rows: Seq<CategoryView>) -> bool {
    forall|i: int, j: int|
        0 <= i < j < rows.len() ==> (#[trigger] rows[i]).name != (#[trigger] rows[j]).name
}

/// `rows` after `row` was written into it: the row of that name is replaced
/// where it stands, and a row of a new name is added at the end.
pub open spec fn upsert_category(rows: Seq<CategoryView>, row: CategoryView) -> Seq<CategoryView> {
    if has_category(rows, row.name) {
        rows.map_values(
            |c: CategoryView|
                if c.name == row.name {
                    row
                } else {
                    c
                },
        )
    } else {
        rows.push(row)
    }
}

/// `rows` without the rows that carry `name`.
pub open spec fn without_category(rows: Seq<CategoryView>, name: Seq<char>) -> Seq<CategoryView> {
    rows.filter(|c: CategoryView| c.name != name)
}

/// Removing a name that no row carries changes nothing.
pub proof fn lemma_without_absent_category(rows: Seq<CategoryView>, name: Seq<char>)
    requires
        !has_category(rows, name),
    ensures
        without_category(rows, name) == rows,
    decreases rows.len(),
{
    reveal(Seq::filter);
    if rows.len() > 0 {
        let front = rows.drop_last();
        assert(!has_category(front, name)) by {
            assert forall|i: int| 0 <= i < front.len() implies (#[trigger] front[i]).name
                != name by {
                assert(rows[i].name != name);
            }
        }
        lemma_without_absent_category(front, name);
        assert(rows.last().name != name);
        assert(front.push(rows.last()) =~= rows);
    }
}

/// Where names are unique, removing a name removes the one row that carries it.
pub proof fn lemma_without_category_at(rows: Seq<CategoryView>, name: Seq<char>, at: int)
    requires
        unique_names(rows),
        0 <= at < rows.len(),
        rows[at].name == name,
    ensures
        without_category(rows, name) == rows.remove(at),
    decreases rows.len(),
{
    reveal(Seq::filter);
    let front = rows.drop_last();
    if at == rows.len() - 1 {
        assert(!has_category(front, name)) by {
            assert forall|i: int| 0 <= i < front.len() implies (#[trigger] front[i]).name
                != name by {
                assert(rows[i].name != rows[at].name);
            }
        }
        lemma_without_absent_category(front, name);
        assert(rows.remove(at) =~= front);
    } else {
        assert(rows[at].name != rows[rows.len() - 1].name);
        assert(unique_names(front)) by {
            assert forall|i: int, j: int| 0 <= i < j < front.len() implies (#[trigger] front[i]).name
                != (#[trigger] front[j]).name by {
                assert(rows[i].name != rows[j].name);
            }
        }
        lemma_without_category_at(front, name, at);
        assert(front.remove(at).push(rows.last()) =~= rows.remove(at));
    }
}

/// Writing a row keeps names unique.
pub proof fn lemma_upsert_keeps_unique_names(rows: Seq<CategoryView>, row: CategoryView)
    requires
        unique_names(rows),
    ensures
        unique_names(upsert_category(rows, row)),
        has_category(upsert_category(rows, row), row.name),
{
    let after = upsert_category(rows, row);
    if has_category(rows, row.name) {
        let at = choose|i: int| 0 <= i < rows.len() && (#[trigger] rows[i]).name == row.name;
        assert(after[at].name == row.name);
        assert forall|i: int, j: int| 0 <= i < j < after.len() implies (#[trigger] after[i]).name
            != (#[trigger] after[j]).name by {
            assert(after[i].name == rows[i].name);
            assert(after[j].name == rows[j].name);
        }
    } else {
        assert(after[rows.len() as int].name == row.name);
        assert forall|i: int, j: int| 0 <= i < j < after.len() implies (#[trigger] after[i]).name
            != (#[trigger] after[j]).name by {
            if j < rows.len() {
                assert(rows[i].name != rows[j].name);
            } else {
                assert(after[i] == rows[i]);
            }
        }
    }
}

/// Writing a row adds its name to the names of the table and takes none away.
pub proof fn lemma_upsert_names(rows: Seq<CategoryView>, row: CategoryView, name: Seq<char>)
    ensures
        has_category(upsert_category(rows, row), name) <==> has_category(rows, name) || name
            == row.name,
{
    let after = upsert_category(rows, row);
    if has_category(rows, name) {
        let k = choose|i: int| 0 <= i < rows.len() && (#[trigger] rows[i]).name == name;
        assert(after[k].name == name);
    }
    if name == row.name {
        if has_category(rows, row.name) {
        } else {
            assert(after[rows.len() as int].name == name);
        }
    }
    if has_category(after, name) {
        let k = choose|i: int| 0 <= i < after.len() && (#[trigger] after[i]).name == name;
        if k < rows.len() {
            assert(rows[k].name == name || name == row.name);
        }
    }
}

/// Removing a name keeps names unique and leaves no row of that name.
pub proof fn lemma_without_keeps_unique_names(rows: Seq<CategoryView>, name: Seq<char>)
    requires
        unique_names(rows),
    ensures
        unique_names(without_category(rows, name)),
        !has_category(without_category(rows, name), name),
        forall|other: Seq<char>|
            other != name ==> (has_category(without_category(rows, name), other) <==> has_category(
                rows,
                other,
            )),
{
    let after = without_category(rows, name);
    if has_category(rows, name) {
        let at = choose|i: int| 0 <= i < rows.len() && (#[trigger] rows[i]).name == name;
        lemma_without_category_at(rows, name, at);
        assert forall|i: int, j: int| 0 <= i < j < after.len() implies (#[trigger] after[i]).name
            != (#[trigger] after[j]).name by {
            let ri = if i < at { i } else { i + 1 };
            let rj = if j < at { j } else { j + 1 };
            assert(rows[ri].name != rows[rj].name);
        }
        assert forall|i: int| 0 <= i < after.len() implies (#[trigger] after[i]).name != name by {
            let ri = if i < at { i } else { i + 1 };
            if ri < at {
                assert(rows[ri].name != rows[at].name);
            } else {
                assert(rows[at].name != rows[ri].name);
            }
        }
        assert forall|other: Seq<char>| other != name implies (has_category(after, other)
            <==> has_category(rows, other)) by {
            if has_category(rows, other) {
                let k = choose|i: int| 0 <= i < rows.len() && (#[trigger] rows[i]).name == other;
                let ak = if k < at { k } else { k - 1 };
                assert(after[ak].name == other);
            }
            if has_category(after, other) {
                let k = choose|i: int| 0 <= i < after.len() && (#[trigger] after[i]).name == other;
                let rk = if k < at { k } else { k + 1 };
                assert(rows[rk].name == other);
            }
        }
    } else {
        lemma_without_absent_category(rows, name);
    }
}

/// The categories of the store: an unordered collection with one row per name.
pub struct CategoryTable {
    rows: Vec<Category>,
}

impl View for CategoryTable {
    type V = Seq<CategoryView>;

    closed spec fn view(&self) -> Seq<CategoryView> {
        self.rows@.map_values(|c: Category| c@)
    }
}

impl CategoryTable {
    #[verifier::type_invariant]
    spec fn one_row_per_name(self) -> bool {
        unique_names(self@)
    }

    /// An empty table.
    pub fn new() -> (table: Self)
        ensures
            table@ == Seq::<CategoryView>::empty(),
    {
        let table = CategoryTable { rows: Vec::new() };
        assert(table@ =~= Seq::<CategoryView>::empty());
        table
    }

    /// The number of rows.
    pub fn len(&self) -> (n: usize)
        ensures
            n == self@.len(),
            unique_names(self@),
    {
        proof {
            use_type_invariant(self);
        }
        self.rows.len()
    }

    fn position(&self, name: &String) -> (at: Option<usize>)
        ensures
            unique_names(self@),
            match at {
                Some(i) => i < self@.len() && self@[i as int].name == name@,
                None => !has_category(self@, name@),
            },
    {
        proof {
            use_type_invariant(self);
        }
        let mut i: usize = 0;
        while i < self.rows.len()
            invariant
                i <= self.rows.len(),
                unique_names(self@),
                forall|k: int| 0 <= k < i ==> (#[trigger] self@[k]).name != name@,
            decreases self.rows.len() - i,
        {
            if self.rows[i].name == *name {
                return Some(i);
            }
            i += 1;
        }
        None
    }

    /// Whether a row carries `name`.
    pub fn contains(&self, name: &String) -> (found: bool)
        ensures
            found == has_category(self@, name@),
            unique_names(self@),
    {
        self.position(name).is_some()
    }

    /// The row that carries `name`, if there is one.
    pub fn get(&self, name: &String) -> (row: Option<Category>)
        ensures
            unique_names(self@),
            match row {
                Some(c) => c@.name == name@ && self@.contains(c@),
                None => !has_category(self@, name@),
            },
    {
        match self.position(name) {
            Some(i) => {
                let c = self.rows[i].clone();
                assert(self@[i as int] == c@);
                Some(c)
            },
            None => None,
        }
    }

    /// The rows, in the order of the table.
    pub fn iterate(&self) -> (rows: Vec<Category>)
        ensures
            rows@.map_values(|c: Category| c@) == self@,
            unique_names(self@),
    {
        proof {
            use_type_invariant(self);
        }
        let mut out: Vec<Category> = Vec::new();
        let mut i: usize = 0;
        while i < self.rows.len()
            invariant
                i <= self.rows.len(),
                out@.len() == i,
                forall|k: int| 0 <= k < i ==> (#[trigger] out@[k])@ == self@[k],
            decreases self.rows.len() - i,
        {
            out.push(self.rows[i].clone());
            i += 1;
        }
        assert(out@.map_values(|c: Category| c@) =~= self@);
        out
    }

    /// Writes a row: a row of that name is overwritten where it stands, a
    /// row of a new name is added.
    pub fn upsert(&mut self, name: String, description: String, color: String)
        ensures
            final(self)@ == upsert_category(
                old(self)@,
                CategoryView { name: name@, description: description@, color: color@ },
            ),
            unique_names(final(self)@),
    {
        let ghost before = self@;
        let ghost row = CategoryView { name: name@, description: description@, color: color@ };
        let at = self.position(&name);
        let mut rows: Vec<Category> = Vec::new();
        std::mem::swap(&mut rows, &mut self.rows);
        let fresh = Category { name, description, color };
        match at {
            Some(i) => {
                rows[i] = fresh;
                proof {
                    let after = rows@.map_values(|c: Category| c@);
                    assert(before[i as int].name == row.name);
                    assert forall|k: int| 0 <= k < before.len() implies #[trigger] after[k]
                        == upsert_category(before, row)[k] by {
                        if k != i {
                            if k < i {
                                assert(before[k].name != before[i as int].name);
                            } else {
                                assert(before[i as int].name != before[k].name);
                            }
                        }
                    }
                    assert(after =~= upsert_category(before, row));
                }
            },
            None => {
                rows.push(fresh);
                proof {
                    let after = rows@.map_values(|c: Category| c@);
                    assert(after =~= upsert_category(before, row));
                }
            },
        }
        proof {
            lemma_upsert_keeps_unique_names(before, row);
        }
        self.rows = rows;
    }

    /// Removes the row that carries `name` and says whether there was one.
    pub fn delete(&mut self, name: &String) -> (existed: bool)
        ensures
            existed == has_category(old(self)@, name@),
            final(self)@ == without_category(old(self)@, name@),
            unique_names(final(self)@),
    {
        let ghost before = self@;
        let at = self.position(name);
        proof {
            lemma_without_keeps_unique_names(before, name@);
        }
        match at {
            Some(i) => {
                let mut rows: Vec<Category> = Vec::new();
                std::mem::swap(&mut rows, &mut self.rows);
                let _ = rows.remove(i);
                proof {
                    lemma_without_category_at(before, name@, i as int);
                    assert(rows@.map_values(|c: Category| c@) =~= before.remove(i as int));
                }
                self.rows = rows;
                true
            },
            None => {
                proof {
                    lemma_without_absent_category(before, name@);
                }
                false
            },
        }
    }
}

} // verus!
