//! The store and the operations that change it.

use crate::category::{has_category, unique_names, Category, CategoryTable, CategoryView};
use crate::data_point::{has_point, unique_ids, DataPoint, DataPointTable, DataPointView};
use crate::host::{random_u64, timestamp_micros};
use crate::laws::{
    lemma_add_category_keeps_invariants, lemma_add_data_point_keeps_invariants,
    lemma_delete_category_keeps_invariants, lemma_delete_data_point_keeps_invariants,
    lemma_ensure_category, lemma_update_data_point_keeps_invariants,
};
use crate::model::{auto_category, StoreView};
use spacetimedb::ReducerContext;
use vstd::prelude::*;

verus! {

/// The two tables. Only the operations of this module write to them.
pub struct Store {
    categories: CategoryTable,
    points: DataPointTable,
}

impl View for Store {
    type V = StoreView;

    closed spec fn view(&self) -> StoreView {
        StoreView { categories: self.categories@, points: self.points@ }
    }
}

impl Store {
    #[verifier::type_invariant]
    pub open spec fn one_row_per_key(self) -> bool {
        self@.well_formed()
    }

    /// A store without any row.
    pub fn new() -> (store: Self)
        ensures
            store@ == StoreView::empty(),
    {
        Store { categories: CategoryTable::new(), points: DataPointTable::new() }
    }

    /// The categories, to read.
    pub fn categories(&self) -> (table: &CategoryTable)
        ensures
            table@ == self@.categories,
            unique_names(table@),
    {
        proof {
            use_type_invariant(self);
        }
        &self.categories
    }

    /// The data points, to read.
    pub fn points(&self) -> (table: &DataPointTable)
        ensures
            table@ == self@.points,
            unique_ids(table@),
    {
        proof {
            use_type_invariant(self);
        }
        &self.points
    }
}

fn take_categories(store: &mut Store) -> (table: CategoryTable)
    ensures
        table@ == old(store)@.categories,
        unique_names(table@),
        final(store)@.categories == Seq::<CategoryView>::empty(),
        final(store)@.points == old(store)@.points,
{
    proof {
        use_type_invariant(&*store);
    }
    let mut table = CategoryTable::new();
    std::mem::swap(&mut table, &mut store.categories);
    table
}

fn take_points(store: &mut Store) -> (table: DataPointTable)
    ensures
        table@ == old(store)@.points,
        unique_ids(table@),
        final(store)@.points == Seq::<DataPointView>::empty(),
        final(store)@.categories == old(store)@.categories,
{
    proof {
        use_type_invariant(&*store);
    }
    let mut table = DataPointTable::new();
    std::mem::swap(&mut table, &mut store.points);
    table
}

/// The name that an optional string holds.
pub open spec fn optional_name(name: Option<String>) -> Option<Seq<char>> {
    match name {
        Some(n) => Some(n@),
        None => None,
    }
}

fn auto_created(name: &String) -> (row: Category)
    ensures
        row@ == auto_category(name@),
{
    Category {
        name: name.clone(),
        description: String::from_str("Auto-created category for ").concat(name.as_str()),
        color: String::from_str("#1f77b4"),
    }
}

/// Creates the category `name`, with the description and the color of a
/// category made on reference, unless the store holds it.
pub fn ensure_category_exists(store: &mut Store, name: &String)
    ensures
        final(store)@ == old(store)@.ensure_category(name@),
        final(store)@.well_formed(),
        old(store)@.referential() ==> final(store)@.referential(),
{
    proof {
        use_type_invariant(&*store);
        lemma_ensure_category(store@, name@);
    }
    if !store.categories.contains(name) {
        let row = auto_created(name);
        let mut categories = take_categories(store);
        categories.upsert(row.name, row.description, row.color);
        store.categories = categories;
    }
}

/// Writes a category: one of that name gets the description and the color,
/// one of a new name is added.
pub fn add_category(
    _ctx: &ReducerContext,
    store: &mut Store,
    name: String,
    description: String,
    color: String,
)
    ensures
        final(store)@ == old(store)@.add_category(name@, description@, color@),
        final(store)@.well_formed(),
        old(store)@.referential() ==> final(store)@.referential(),
{
    proof {
        use_type_invariant(&*store);
        lemma_add_category_keeps_invariants(store@, name@, description@, color@);
    }
    let mut categories = take_categories(store);
    categories.upsert(name, description, color);
    store.categories = categories;
}

/// Adds a data point under the id and the time that were drawn for it,
/// creating its category if the store does not hold it, and says whether the
/// data point was added: one whose id is taken is refused.
pub fn insert_data_point(
    store: &mut Store,
    id: u64,
    timestamp: i64,
    category: String,
    value: u64,
) -> (added: bool)
    ensures
        added == !has_point(old(store)@.points, id),
        final(store)@ == old(store)@.add_data_point(id, timestamp, category@, value),
        final(store)@.well_formed(),
        old(store)@.referential() ==> final(store)@.referential(),
{
    proof {
        use_type_invariant(&*store);
        lemma_add_data_point_keeps_invariants(store@, id, timestamp, category@, value);
    }
    ensure_category_exists(store, &category);
    let mut points = take_points(store);
    let added = points.insert(DataPoint { id, timestamp, category, value });
    store.points = points;
    added
}

/// Adds a data point under an id drawn from the generator of the call and
/// the time of the call, and returns the id. A data point whose id is taken
/// is refused, and the id is returned all the same.
pub fn add_data_point(ctx: &ReducerContext, store: &mut Store, category: String, value: u64) -> (id:
    u64)
    ensures
        exists|timestamp: i64|
            final(store)@ == #[trigger] old(store)@.add_data_point(id, timestamp, category@, value),
        final(store)@.well_formed(),
        old(store)@.referential() ==> final(store)@.referential(),
{
    let id = random_u64(ctx);
    let timestamp = timestamp_micros(ctx);
    let _ = insert_data_point(store, id, timestamp, category, value);
    id
}

/// Overwrites the category, the value or both of the data point `id`,
/// creating the category if the store does not hold it, and says whether the
/// store holds the data point.
pub fn update_data_point(
    _ctx: &ReducerContext,
    store: &mut Store,
    id: u64,
    category: Option<String>,
    value: Option<u64>,
) -> (found: bool)
    ensures
        found == has_point(old(store)@.points, id),
        final(store)@ == old(store)@.update_data_point(id, optional_name(category), value),
        final(store)@.well_formed(),
        old(store)@.referential() ==> final(store)@.referential(),
{
    let ghost before = store@;
    proof {
        use_type_invariant(&*store);
        lemma_update_data_point_keeps_invariants(before, id, optional_name(category), value);
    }
    match store.points.get(id) {
        None => false,
        Some(row) => {
            let ghost found_row = row@;
            let mut row = row;
            if let Some(name) = category {
                ensure_category_exists(store, &name);
                row.category = name;
            }
            if let Some(v) = value {
                row.value = v;
            }
            assert(row@ == found_row.amended(optional_name(category), value));
            let mut points = take_points(store);
            let _ = points.update(row);
            store.points = points;
            proof {
                let at = choose|k: int| 0 <= k < before.points.len() && before.points[k] == found_row;
                assert forall|k: int| 0 <= k < before.points.len() implies #[trigger] store@.points[k]
                    == before.update_data_point(id, optional_name(category), value).points[k] by {
                    if k < at {
                        assert(before.points[k].id != before.points[at].id);
                    } else if at < k {
                        assert(before.points[at].id != before.points[k].id);
                    }
                }
                assert(store@.points =~= before.update_data_point(
                    id,
                    optional_name(category),
                    value,
                ).points);
            }
            true
        },
    }
}

/// Deletes the data point `id` and says whether the store held it.
pub fn delete_data_point(_ctx: &ReducerContext, store: &mut Store, id: u64) -> (found: bool)
    ensures
        found == has_point(old(store)@.points, id),
        final(store)@ == old(store)@.delete_data_point(id),
        final(store)@.well_formed(),
        old(store)@.referential() ==> final(store)@.referential(),
{
    proof {
        use_type_invariant(&*store);
        lemma_delete_data_point_keeps_invariants(store@, id);
    }
    let mut points = take_points(store);
    let found = points.delete(id);
    store.points = points;
    found
}

/// Deletes the category `name` and says whether the store held it. Its data
/// points go to the category `reassign_to`, which is created if the store
/// does not hold it; without one they are deleted with the category. A
/// category that is named as its own target keeps its data points, and
/// stays in the store with them.
pub fn delete_category(
    _ctx: &ReducerContext,
    store: &mut Store,
    name: String,
    reassign_to: Option<String>,
) -> (found: bool)
    ensures
        found == has_category(old(store)@.categories, name@),
        final(store)@ == old(store)@.delete_category(name@, optional_name(reassign_to)),
        final(store)@.well_formed(),
        old(store)@.referential() ==> final(store)@.referential(),
{
    proof {
        use_type_invariant(&*store);
        lemma_delete_category_keeps_invariants(store@, name@, optional_name(reassign_to));
    }
    if !store.categories.contains(&name) {
        return false;
    }
    match reassign_to {
        Some(target) => {
            ensure_category_exists(store, &target);
            let mut points = take_points(store);
            points.reassign(&name, &target);
            store.points = points;
        },
        None => {
            let mut points = take_points(store);
            points.delete_in_category(&name);
            store.points = points;
        },
    }
    if !store.points.any_in_category(&name) {
        let mut categories = take_categories(store);
        let _ = categories.delete(&name);
        store.categories = categories;
    }
    true
}

} // verus!
