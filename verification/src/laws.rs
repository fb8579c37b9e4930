//! What holds of the operations on every store.

use crate::category::{
    has_category, lemma_upsert_keeps_unique_names, lemma_upsert_names,
    lemma_without_keeps_unique_names, unique_names, upsert_category, without_category,
    CategoryView,
};
use crate::data_point::{has_point, has_point_in, lemma_filter_points, move_points, DataPointView};
use crate::model::{auto_category, StoreView};
use vstd::prelude::*;

verus! {

/// Creating a category on reference keeps the invariants, makes the name
/// known and forgets no name.
pub proof fn lemma_ensure_category(s: StoreView, name: Seq<char>)
    requires
        s.well_formed(),
    ensures
        s.ensure_category(name).well_formed(),
        s.referential() ==> s.ensure_category(name).referential(),
        forall|other: Seq<char>|
            has_category(s.ensure_category(name).categories, other) <==> has_category(
                s.categories,
                other,
            ) || other == name,
{
    let after = s.ensure_category(name);
    if !has_category(s.categories, name) {
        assert(after.categories == upsert_category(s.categories, auto_category(name)));
        lemma_upsert_keeps_unique_names(s.categories, auto_category(name));
    }
    assert forall|other: Seq<char>|
        has_category(after.categories, other) <==> has_category(s.categories, other) || other
            == name by {
        if !has_category(s.categories, name) {
            lemma_upsert_names(s.categories, auto_category(name), other);
        }
    }
    if s.referential() {
        assert forall|i: int| 0 <= i < after.points.len() implies has_category(
            after.categories,
            (#[trigger] after.points[i]).category,
        ) by {
            assert(has_category(s.categories, s.points[i].category));
        }
    }
}

/// Writing a category keeps each name and each id in one row, and every data
/// point in a category of the store.
pub proof fn lemma_add_category_keeps_invariants(
    s: StoreView,
    name: Seq<char>,
    description: Seq<char>,
    color: Seq<char>,
)
    requires
        s.well_formed(),
    ensures
        s.add_category(name, description, color).well_formed(),
        s.referential() ==> s.add_category(name, description, color).referential(),
{
    let row = CategoryView { name, description, color };
    let after = s.add_category(name, description, color);
    lemma_upsert_keeps_unique_names(s.categories, row);
    if s.referential() {
        assert forall|i: int| 0 <= i < after.points.len() implies has_category(
            after.categories,
            (#[trigger] after.points[i]).category,
        ) by {
            assert(has_category(s.categories, s.points[i].category));
            lemma_upsert_names(s.categories, row, s.points[i].category);
        }
    }
}

/// Adding a data point keeps each name and each id in one row, and every
/// data point in a category of the store.
pub proof fn lemma_add_data_point_keeps_invariants(
    s: StoreView,
    id: u64,
    timestamp: i64,
    category: Seq<char>,
    value: u64,
)
    requires
        s.well_formed(),
    ensures
        s.add_data_point(id, timestamp, category, value).well_formed(),
        s.referential() ==> s.add_data_point(id, timestamp, category, value).referential(),
{
    let after = s.add_data_point(id, timestamp, category, value);
    lemma_ensure_category(s, category);
    assert forall|i: int, j: int| 0 <= i < j < after.points.len() implies (
    #[trigger] after.points[i]).id != (#[trigger] after.points[j]).id by {
        if j < s.points.len() {
            assert(s.points[i].id != s.points[j].id);
        } else {
            assert(s.points[i].id != id);
        }
    }
    if s.referential() {
        assert forall|i: int| 0 <= i < after.points.len() implies has_category(
            after.categories,
            (#[trigger] after.points[i]).category,
        ) by {
            if i < s.points.len() {
                assert(has_category(s.categories, s.points[i].category));
            }
        }
    }
}

/// Amending a data point keeps each name and each id in one row, and every
/// data point in a category of the store.
pub proof fn lemma_update_data_point_keeps_invariants(
    s: StoreView,
    id: u64,
    category: Option<Seq<char>>,
    value: Option<u64>,
)
    requires
        s.well_formed(),
    ensures
        s.update_data_point(id, category, value).well_formed(),
        s.referential() ==> s.update_data_point(id, category, value).referential(),
{
    let after = s.update_data_point(id, category, value);
    if has_point(s.points, id) {
        if let Some(c) = category {
            lemma_ensure_category(s, c);
        }
        assert forall|i: int, j: int| 0 <= i < j < after.points.len() implies (
        #[trigger] after.points[i]).id != (#[trigger] after.points[j]).id by {
            assert(s.points[i].id != s.points[j].id);
        }
        if s.referential() {
            assert forall|i: int| 0 <= i < after.points.len() implies has_category(
                after.categories,
                (#[trigger] after.points[i]).category,
            ) by {
                assert(has_category(s.categories, s.points[i].category));
            }
        }
    }
}

/// Deleting a data point keeps each name and each id in one row, and every
/// data point in a category of the store.
pub proof fn lemma_delete_data_point_keeps_invariants(s: StoreView, id: u64)
    requires
        s.well_formed(),
    ensures
        s.delete_data_point(id).well_formed(),
        s.referential() ==> s.delete_data_point(id).referential(),
{
    let after = s.delete_data_point(id);
    lemma_filter_points(s.points, |p: DataPointView| p.id != id);
    if s.referential() {
        assert forall|i: int| 0 <= i < after.points.len() implies has_category(
            after.categories,
            (#[trigger] after.points[i]).category,
        ) by {
            assert(s.points.contains(after.points[i]));
            let k = choose|k: int| 0 <= k < s.points.len() && s.points[k] == after.points[i];
            assert(has_category(s.categories, s.points[k].category));
        }
    }
}

/// After the data points of a category went where its deletion sends them,
/// data points still belong to it only where it is its own target and had
/// data points. Each name and each id is still in one row, every name of the
/// store is still known, and every data point is still in a category of the
/// store.
pub proof fn lemma_cascade(s: StoreView, name: Seq<char>, reassign_to: Option<Seq<char>>)
    requires
        s.well_formed(),
    ensures
        has_point_in(s.cascade(name, reassign_to).points, name) <==> reassign_to == Some(name)
            && has_point_in(s.points, name),
        s.cascade(name, reassign_to).well_formed(),
        forall|other: Seq<char>|
            has_category(s.categories, other) ==> has_category(
                s.cascade(name, reassign_to).categories,
                other,
            ),
        s.referential() ==> s.cascade(name, reassign_to).referential(),
{
    let after = s.cascade(name, reassign_to);
    match reassign_to {
        Some(target) => {
            lemma_ensure_category(s, target);
            assert forall|i: int, j: int| 0 <= i < j < after.points.len() implies (
            #[trigger] after.points[i]).id != (#[trigger] after.points[j]).id by {
                assert(s.points[i].id != s.points[j].id);
            }
            if has_point_in(after.points, name) {
                let k = choose|i: int|
                    0 <= i < after.points.len() && (#[trigger] after.points[i]).category == name;
                assert(after.points[k] == s.points[k].moved(name, target));
                assert(s.points[k].category == name);
            }
            if target == name && has_point_in(s.points, name) {
                let k = choose|i: int|
                    0 <= i < s.points.len() && (#[trigger] s.points[i]).category == name;
                assert(after.points[k].category == name);
            }
            if s.referential() {
                assert forall|i: int| 0 <= i < after.points.len() implies has_category(
                    after.categories,
                    (#[trigger] after.points[i]).category,
                ) by {
                    assert(has_category(s.categories, s.points[i].category));
                }
            }
        },
        None => {
            lemma_filter_points(s.points, |p: DataPointView| p.category != name);
            if has_point_in(after.points, name) {
                let k = choose|i: int|
                    0 <= i < after.points.len() && (#[trigger] after.points[i]).category == name;
                assert(after.points[k].category != name);
            }
            if s.referential() {
                assert forall|i: int| 0 <= i < after.points.len() implies has_category(
                    after.categories,
                    (#[trigger] after.points[i]).category,
                ) by {
                    assert(s.points.contains(after.points[i]));
                    let k = choose|k: int| 0 <= k < s.points.len() && s.points[k] == after.points[i];
                    assert(has_category(s.categories, s.points[k].category));
                }
            }
        },
    }
}

/// Deleting a category keeps each name and each id in one row, and every
/// data point in a category of the store, whatever its target.
pub proof fn lemma_delete_category_keeps_invariants(
    s: StoreView,
    name: Seq<char>,
    reassign_to: Option<Seq<char>>,
)
    requires
        s.well_formed(),
    ensures
        s.delete_category(name, reassign_to).well_formed(),
        s.referential() ==> s.delete_category(name, reassign_to).referential(),
{
    let after = s.delete_category(name, reassign_to);
    if has_category(s.categories, name) {
        let cascaded = s.cascade(name, reassign_to);
        lemma_cascade(s, name, reassign_to);
        if !has_point_in(cascaded.points, name) {
            lemma_without_keeps_unique_names(cascaded.categories, name);
            if s.referential() {
                assert forall|i: int| 0 <= i < after.points.len() implies has_category(
                    after.categories,
                    (#[trigger] after.points[i]).category,
                ) by {
                    assert(has_category(cascaded.categories, cascaded.points[i].category));
                    assert(cascaded.points[i].category != name);
                }
            }
        }
    }
}

/// Deleting a category that is named as its own target and has data points
/// changes nothing: the data points stay, and the category with them. Where
/// it has no data points, it is deleted and nothing else changes.
pub proof fn lemma_delete_category_onto_itself(s: StoreView, name: Seq<char>)
    requires
        s.well_formed(),
        has_category(s.categories, name),
    ensures
        has_point_in(s.points, name) ==> s.delete_category(name, Some(name)) == s,
        !has_point_in(s.points, name) ==> s.delete_category(name, Some(name)) == (StoreView {
            categories: without_category(s.categories, name),
            points: s.points,
        }),
{
    lemma_cascade(s, name, Some(name));
    assert(move_points(s.points, name, name) =~= s.points);
}

/// A deletion of a category deletes its row exactly where the target, if
/// there is one, is another category, or the category has no data points.
pub proof fn lemma_delete_category_deletes_row(
    s: StoreView,
    name: Seq<char>,
    reassign_to: Option<Seq<char>>,
)
    requires
        s.well_formed(),
        has_category(s.categories, name),
    ensures
        has_category(s.delete_category(name, reassign_to).categories, name) <==> reassign_to
            == Some(name) && has_point_in(s.points, name),
{
    let cascaded = s.cascade(name, reassign_to);
    lemma_cascade(s, name, reassign_to);
    if !has_point_in(cascaded.points, name) {
        lemma_without_keeps_unique_names(cascaded.categories, name);
    }
}

/// Writing the same category twice leaves what writing it once leaves: one
/// row of that name, with the description and the color that were written.
pub proof fn lemma_add_category_idempotent(
    s: StoreView,
    name: Seq<char>,
    description: Seq<char>,
    color: Seq<char>,
)
    ensures
        s.add_category(name, description, color).add_category(name, description, color)
            == s.add_category(name, description, color),
        s.add_category(name, description, color).categories.contains(
            CategoryView { name, description, color },
        ),
        forall|i: int|
            0 <= i < s.add_category(name, description, color).categories.len() && (
            #[trigger] s.add_category(name, description, color).categories[i]).name == name
                ==> s.add_category(name, description, color).categories[i] == (CategoryView {
                name,
                description,
                color,
            }),
        unique_names(s.categories) ==> unique_names(
            s.add_category(name, description, color).categories,
        ),
{
    if unique_names(s.categories) {
        lemma_upsert_keeps_unique_names(s.categories, CategoryView { name, description, color });
    }
    let row = CategoryView { name, description, color };
    let once = s.add_category(name, description, color);
    let twice = once.add_category(name, description, color);
    lemma_upsert_names(s.categories, row, name);
    assert(once.categories.contains(row)) by {
        if has_category(s.categories, name) {
            let k = choose|i: int| 0 <= i < s.categories.len() && (#[trigger] s.categories[i]).name
                == name;
            assert(once.categories[k] == row);
        } else {
            assert(once.categories[s.categories.len() as int] == row);
        }
    }
    assert(twice.categories =~= once.categories);
}

/// An update that names no category changes the value of the data point and
/// nothing else.
pub proof fn lemma_update_value_only(s: StoreView, id: u64, value: u64)
    ensures
        s.update_data_point(id, None, Some(value)).categories == s.categories,
        s.update_data_point(id, None, Some(value)).points.len() == s.points.len(),
        forall|i: int|
            0 <= i < s.points.len() ==> #[trigger] s.update_data_point(
                id,
                None,
                Some(value),
            ).points[i] == if s.points[i].id == id {
                (DataPointView {
                    id,
                    timestamp: s.points[i].timestamp,
                    category: s.points[i].category,
                    value,
                })
            } else {
                s.points[i]
            },
{
}

/// An update of a data point that the store does not hold changes nothing.
pub proof fn lemma_update_missing_point(
    s: StoreView,
    id: u64,
    category: Option<Seq<char>>,
    value: Option<u64>,
)
    requires
        !has_point(s.points, id),
    ensures
        s.update_data_point(id, category, value) == s,
{
}

/// Deleting a category with another category as target removes the category,
/// leaves the target in the store, and moves every data point of the category
/// to the target, each where it stands and otherwise unchanged.
pub proof fn lemma_delete_category_reassigns(s: StoreView, name: Seq<char>, target: Seq<char>)
    requires
        s.well_formed(),
        has_category(s.categories, name),
        target != name,
    ensures
        !has_category(s.delete_category(name, Some(target)).categories, name),
        has_category(s.delete_category(name, Some(target)).categories, target),
        !has_point_in(s.delete_category(name, Some(target)).points, name),
        s.delete_category(name, Some(target)).points.len() == s.points.len(),
        forall|i: int|
            0 <= i < s.points.len() ==> #[trigger] s.delete_category(
                name,
                Some(target),
            ).points[i] == if s.points[i].category == name {
                (DataPointView {
                    id: s.points[i].id,
                    timestamp: s.points[i].timestamp,
                    category: target,
                    value: s.points[i].value,
                })
            } else {
                s.points[i]
            },
{
    let after = s.delete_category(name, Some(target));
    lemma_cascade(s, name, Some(target));
    lemma_ensure_category(s, target);
    lemma_without_keeps_unique_names(s.ensure_category(target).categories, name);
}

/// Deleting a category without a target removes the category and every data
/// point of it, and keeps every other data point.
pub proof fn lemma_delete_category_cascades(s: StoreView, name: Seq<char>)
    requires
        s.well_formed(),
        has_category(s.categories, name),
    ensures
        !has_category(s.delete_category(name, None).categories, name),
        !has_point_in(s.delete_category(name, None).points, name),
        forall|i: int|
            0 <= i < s.points.len() && (#[trigger] s.points[i]).category == name ==> !has_point(
                s.delete_category(name, None).points,
                s.points[i].id,
            ),
        forall|i: int|
            0 <= i < s.points.len() && (#[trigger] s.points[i]).category != name
                ==> s.delete_category(name, None).points.contains(s.points[i]),
{
    let after = s.delete_category(name, None);
    let keep = |p: DataPointView| p.category != name;
    lemma_cascade(s, name, None);
    lemma_without_keeps_unique_names(s.categories, name);
    lemma_filter_points(s.points, keep);
    assert forall|i: int| 0 <= i < s.points.len() && (#[trigger] s.points[i]).category
        == name implies !has_point(after.points, s.points[i].id) by {
        if has_point(after.points, s.points[i].id) {
            let k = choose|k: int| 0 <= k < after.points.len() && (#[trigger] after.points[k]).id
                == s.points[i].id;
            assert(s.points.contains(after.points[k]));
            let j = choose|j: int| 0 <= j < s.points.len() && s.points[j] == after.points[k];
            if j < i {
                assert(s.points[j].id != s.points[i].id);
            } else if i < j {
                assert(s.points[i].id != s.points[j].id);
            }
        }
    }
}

/// A data point with a fresh id that names an unknown category adds the
/// category, with the description and the color of a category made on
/// reference, and the data point, each at the end of its table.
pub proof fn lemma_add_data_point_creates_category(
    s: StoreView,
    id: u64,
    timestamp: i64,
    category: Seq<char>,
    value: u64,
)
    requires
        !has_category(s.categories, category),
        !has_point(s.points, id),
    ensures
        s.add_data_point(id, timestamp, category, value).categories == s.categories.push(
            CategoryView {
                name: category,
                description: "Auto-created category for "@ + category,
                color: "#1f77b4"@,
            },
        ),
        s.add_data_point(id, timestamp, category, value).points == s.points.push(
            DataPointView { id, timestamp, category, value },
        ),
{
}

} // verus!
