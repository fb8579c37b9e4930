//! The store as a mathematical value, and what each operation makes of it.

use crate::category::{has_category, unique_names, upsert_category, without_category, CategoryView};
use crate::data_point::{
    amend_point, has_point, has_point_in, insert_point, move_points, unique_ids, without_point,
    without_points_in, DataPointView,
};
use vstd::prelude::*;

verus! {

/// The description that a category gets when a reference creates it.
pub open spec fn auto_description(name: Seq<char>) -> Seq<char> {
    "Auto-created category for "@ + name
}

/// The row that a reference to the unknown category `name` creates.
pub open spec fn auto_category(name: Seq<char>) -> CategoryView {
    CategoryView { name, description: auto_description(name), color: "#1f77b4"@ }
}

/// The two tables of the store, each in the order of its rows.
pub struct StoreView {
    pub categories: Seq<CategoryView>,
    pub points: Seq<DataPointView>,
}

impl StoreView {
    /// The store without any row.
    pub open spec fn empty() -> StoreView {
        StoreView { categories: Seq::empty(), points: Seq::empty() }
    }

    /// Each category name and each data point id occurs in one row at most.
    pub open spec fn well_formed(self) -> bool {
        unique_names(self.categories) && unique_ids(self.points)
    }

    /// Every data point belongs to a category of the store.
    pub open spec fn referential(self) -> bool {
        forall|i: int|
            0 <= i < self.points.len() ==> has_category(
                self.categories,
                (#[trigger] self.points[i]).category,
            )
    }

    /// The store with the category `name` created if it was unknown.
    pub open spec fn ensure_category(self, name: Seq<char>) -> StoreView {
        if has_category(self.categories, name) {
            self
        } else {
            StoreView { categories: self.categories.push(auto_category(name)), points: self.points }
        }
    }

    /// The store after a category was written.
    pub open spec fn add_category(
        self,
        name: Seq<char>,
        description: Seq<char>,
        color: Seq<char>,
    ) -> StoreView {
        StoreView {
            categories: upsert_category(self.categories, CategoryView { name, description, color }),
            points: self.points,
        }
    }

    /// The store after a data point with the drawn `id` was offered to it at
    /// the time `timestamp`.
    pub open spec fn add_data_point(
        self,
        id: u64,
        timestamp: i64,
        category: Seq<char>,
        value: u64,
    ) -> StoreView {
        StoreView {
            categories: self.ensure_category(category).categories,
            points: insert_point(self.points, DataPointView { id, timestamp, category, value }),
        }
    }

    /// The store after the data point `id` was amended.
    pub open spec fn update_data_point(
        self,
        id: u64,
        category: Option<Seq<char>>,
        value: Option<u64>,
    ) -> StoreView {
        if !has_point(self.points, id) {
            self
        } else {
            StoreView {
                categories: match category {
                    Some(c) => self.ensure_category(c).categories,
                    None => self.categories,
                },
                points: amend_point(self.points, id, category, value),
            }
        }
    }

    /// The store after the data point `id` was deleted.
    pub open spec fn delete_data_point(self, id: u64) -> StoreView {
        StoreView { categories: self.categories, points: without_point(self.points, id) }
    }

    /// The store after the data points of the category `name` went where a
    /// deletion of the category sends them: to the category `reassign_to`,
    /// which is created if it was unknown, or, without one, out of the store.
    pub open spec fn cascade(self, name: Seq<char>, reassign_to: Option<Seq<char>>) -> StoreView {
        match reassign_to {
            Some(target) => StoreView {
                categories: self.ensure_category(target).categories,
                points: move_points(self.points, name, target),
            },
            None => StoreView {
                categories: self.categories,
                points: without_points_in(self.points, name),
            },
        }
    }

    /// The store after a deletion of the category `name`: its data points go
    /// where the call sends them, and then its row is deleted, unless data
    /// points still belong to it. That is so only where the category is its
    /// own target: its data points stay, and the row stays with them.
    pub open spec fn delete_category(self, name: Seq<char>, reassign_to: Option<Seq<char>>) -> StoreView {
        if !has_category(self.categories, name) {
            self
        } else {
            let cascaded = self.cascade(name, reassign_to);
            if has_point_in(cascaded.points, name) {
                cascaded
            } else {
                StoreView {
                    categories: without_category(cascaded.categories, name),
                    points: cascaded.points,
                }
            }
        }
    }
}

} // verus!
