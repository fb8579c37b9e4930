//! Sample data: four categories, and data points drawn at random.

use crate::binary64::{binary64_of_hundredths, hundredths_to_binary64, lemma_hundredths_bound};
use crate::category::{has_category, lemma_upsert_names, CategoryView};
use crate::data_point::{has_point, DataPointView};
use crate::host::{random_u64, timestamp_micros};
use crate::laws::{lemma_add_category_keeps_invariants, lemma_add_data_point_keeps_invariants};
use crate::model::StoreView;
use crate::store::{add_category, insert_data_point, Store};
use spacetimedb::ReducerContext;
use vstd::prelude::*;

verus! {

/// What is drawn for one sample data point.
#[derive(Clone, Copy, Debug)]
pub struct SampleDraw {
    /// The draw that picks the category.
    pub category: u64,
    /// The draw that picks the value.
    pub value: u64,
    /// The id of the data point.
    pub id: u64,
    /// The time of the call, in microseconds since the Unix epoch.
    pub timestamp: i64,
}

/// The name of the sample category `index`.
pub open spec fn sample_name(index: int) -> Seq<char> {
    if index == 0 {
        "Revenue"@
    } else if index == 1 {
        "Users"@
    } else if index == 2 {
        "Engagement"@
    } else {
        "Conversion"@
    }
}

/// The color of the sample category `index`.
pub open spec fn sample_color(index: int) -> Seq<char> {
    if index == 0 {
        "#1f77b4"@
    } else if index == 1 {
        "#ff7f0e"@
    } else if index == 2 {
        "#2ca02c"@
    } else {
        "#d62728"@
    }
}

/// The row of the sample category `index`.
pub open spec fn sample_category(index: int) -> CategoryView {
    CategoryView {
        name: sample_name(index),
        description: "Sample data for "@ + sample_name(index),
        color: sample_color(index),
    }
}

/// The number of hundredths that a draw picks: one of 0, 1, ..., 9999.
pub open spec fn sample_hundredths(draw: u64) -> nat {
    (draw % 10_000) as nat
}

/// The data point that a draw makes: its category is the sample category
/// that the draw picks out of the four, its value the binary64 number of the
/// hundredths that the draw picks.
pub open spec fn sample_point(draw: SampleDraw) -> DataPointView {
    DataPointView {
        id: draw.id,
        timestamp: draw.timestamp,
        category: sample_name((draw.category % 4) as int),
        value: binary64_of_hundredths(sample_hundredths(draw.value)) as u64,
    }
}

/// The ids of the draws are new to `points` and differ from each other.
pub open spec fn new_ids(points: Seq<DataPointView>, draws: Seq<SampleDraw>) -> bool {
    &&& forall|i: int| 0 <= i < draws.len() ==> !has_point(points, (#[trigger] draws[i]).id)
    &&& forall|i: int, j: int|
        0 <= i < j < draws.len() ==> (#[trigger] draws[i]).id != (#[trigger] draws[j]).id
}

impl StoreView {
    /// The store with the sample category `index` added if the store held
    /// none of its name.
    pub open spec fn seed_category(self, index: int) -> StoreView {
        if has_category(self.categories, sample_name(index)) {
            self
        } else {
            let row = sample_category(index);
            self.add_category(row.name, row.description, row.color)
        }
    }

    /// The store with each of the four sample categories added if the store
    /// held none of its name.
    pub open spec fn seed_sample_categories(self) -> StoreView {
        self.seed_category(0).seed_category(1).seed_category(2).seed_category(3)
    }

    /// The store after the data point of a draw was offered to it.
    pub open spec fn add_sample_point(self, draw: SampleDraw) -> StoreView {
        let p = sample_point(draw);
        self.add_data_point(p.id, p.timestamp, p.category, p.value)
    }

    /// The store after the data points of the draws were offered to it, one
    /// after the other.
    pub open spec fn add_sample_points(self, draws: Seq<SampleDraw>) -> StoreView
        decreases draws.len(),
    {
        if draws.len() == 0 {
            self
        } else {
            self.add_sample_points(draws.drop_last()).add_sample_point(draws.last())
        }
    }

    /// The store after the sample categories were seeded and the data points
    /// of the draws offered to it.
    pub open spec fn generate_sample_data(self, draws: Seq<SampleDraw>) -> StoreView {
        self.seed_sample_categories().add_sample_points(draws)
    }
}

/// Seeding a sample category keeps each name and each id in one row, and
/// every data point in a category of the store.
pub proof fn lemma_seed_category_keeps_invariants(s: StoreView, index: int)
    requires
        s.well_formed(),
    ensures
        s.seed_category(index).well_formed(),
        s.referential() ==> s.seed_category(index).referential(),
{
    let row = sample_category(index);
    lemma_add_category_keeps_invariants(s, row.name, row.description, row.color);
}

/// Offering the data points of any draws keeps each name and each id in one
/// row, and every data point in a category of the store.
pub proof fn lemma_add_sample_points_keeps_invariants(s: StoreView, draws: Seq<SampleDraw>)
    requires
        s.well_formed(),
    ensures
        s.add_sample_points(draws).well_formed(),
        s.referential() ==> s.add_sample_points(draws).referential(),
    decreases draws.len(),
{
    if draws.len() > 0 {
        lemma_add_sample_points_keeps_invariants(s, draws.drop_last());
        let p = sample_point(draws.last());
        lemma_add_data_point_keeps_invariants(
            s.add_sample_points(draws.drop_last()),
            p.id,
            p.timestamp,
            p.category,
            p.value,
        );
    }
}

/// Generating sample data keeps each name and each id in one row, and every
/// data point in a category of the store, whatever is drawn.
pub proof fn lemma_generate_sample_data_keeps_invariants(s: StoreView, draws: Seq<SampleDraw>)
    requires
        s.well_formed(),
    ensures
        s.generate_sample_data(draws).well_formed(),
        s.referential() ==> s.generate_sample_data(draws).referential(),
{
    lemma_seed_category_keeps_invariants(s, 0);
    lemma_seed_category_keeps_invariants(s.seed_category(0), 1);
    lemma_seed_category_keeps_invariants(s.seed_category(0).seed_category(1), 2);
    lemma_seed_category_keeps_invariants(s.seed_category(0).seed_category(1).seed_category(2), 3);
    lemma_add_sample_points_keeps_invariants(s.seed_sample_categories(), draws);
}

/// Seeding leaves the rows that the store held as they are and where they
/// are, leaves the data points alone, and leaves the store with a category
/// of each of the four names.
pub proof fn lemma_seeded_categories(s: StoreView)
    ensures
        s.seed_sample_categories().points == s.points,
        s.seed_sample_categories().categories.len() >= s.categories.len(),
        s.seed_sample_categories().categories.take(s.categories.len() as int) == s.categories,
        forall|index: int|
            0 <= index < 4 ==> has_category(
                s.seed_sample_categories().categories,
                #[trigger] sample_name(index),
            ),
{
    let s1 = s.seed_category(0);
    let s2 = s1.seed_category(1);
    let s3 = s2.seed_category(2);
    let s4 = s3.seed_category(3);
    lemma_seed_category(s, 0);
    lemma_seed_category(s1, 1);
    lemma_seed_category(s2, 2);
    lemma_seed_category(s3, 3);
    assert(s4.categories.take(s.categories.len() as int) =~= s.categories) by {
        assert forall|i: int| 0 <= i < s.categories.len() implies s4.categories[i]
            == s.categories[i] by {
            assert(s1.categories.take(s.categories.len() as int)[i] == s.categories[i]);
            assert(s2.categories.take(s1.categories.len() as int)[i] == s1.categories[i]);
            assert(s3.categories.take(s2.categories.len() as int)[i] == s2.categories[i]);
            assert(s4.categories.take(s3.categories.len() as int)[i] == s3.categories[i]);
        }
    }
    assert forall|index: int| 0 <= index < 4 implies has_category(
        s4.categories,
        #[trigger] sample_name(index),
    ) by {
        assert(has_category(s1.categories, sample_name(0)));
        assert(has_category(s2.categories, sample_name(1)));
        assert(has_category(s3.categories, sample_name(2)));
        assert(has_category(s4.categories, sample_name(3)));
    }
}

proof fn lemma_seed_category(s: StoreView, index: int)
    ensures
        s.seed_category(index).points == s.points,
        s.seed_category(index).categories.len() >= s.categories.len(),
        s.seed_category(index).categories.take(s.categories.len() as int) == s.categories,
        has_category(s.seed_category(index).categories, sample_name(index)),
        forall|name: Seq<char>|
            has_category(s.categories, name) ==> has_category(
                s.seed_category(index).categories,
                name,
            ),
{
    let after = s.seed_category(index);
    assert(after.categories.take(s.categories.len() as int) =~= s.categories);
    assert forall|name: Seq<char>| has_category(s.categories, name) implies has_category(
        after.categories,
        name,
    ) by {
        lemma_upsert_names(s.categories, sample_category(index), name);
    }
    lemma_upsert_names(s.categories, sample_category(index), sample_name(index));
}

/// The data point of every draw belongs to one of the four sample
/// categories, and its value is the binary64 number of at most 9999
/// hundredths.
pub proof fn lemma_sample_point_range(draw: SampleDraw)
    ensures
        exists|index: int| 0 <= index < 4 && sample_point(draw).category == sample_name(index),
        sample_hundredths(draw.value) <= 9999,
        sample_point(draw).value == binary64_of_hundredths(sample_hundredths(draw.value)),
        sample_point(draw).value <= 0x4058_FF5C_28F5_C28F,
{
    assert(sample_point(draw).category == sample_name((draw.category % 4) as int));
    lemma_hundredths_bound(sample_hundredths(draw.value));
}

/// Where the store holds the four sample categories, offering the data
/// points of any draws adds no category, keeps the data points that the
/// store held where they are, and adds at most one data point for each draw,
/// each the data point of one of the draws.
pub proof fn lemma_add_sample_points_adds_samples(s: StoreView, draws: Seq<SampleDraw>)
    requires
        forall|index: int| 0 <= index < 4 ==> has_category(s.categories, #[trigger] sample_name(index)),
    ensures
        s.add_sample_points(draws).categories == s.categories,
        s.points.len() <= s.add_sample_points(draws).points.len() <= s.points.len() + draws.len(),
        s.add_sample_points(draws).points.take(s.points.len() as int) == s.points,
        forall|k: int|
            s.points.len() <= k < s.add_sample_points(draws).points.len() ==> exists|i: int|
                0 <= i < draws.len() && #[trigger] s.add_sample_points(draws).points[k]
                    == sample_point(#[trigger] draws[i]),
    decreases draws.len(),
{
    let after = s.add_sample_points(draws);
    if draws.len() == 0 {
        assert(after.points.take(s.points.len() as int) =~= s.points);
    } else {
        let front = draws.drop_last();
        let last = draws.last();
        lemma_add_sample_points_adds_samples(s, front);
        let prev = s.add_sample_points(front);
        assert(has_category(prev.categories, sample_name((last.category % 4) as int)));
        assert(after.points.take(s.points.len() as int) =~= s.points) by {
            assert forall|k: int| 0 <= k < s.points.len() implies after.points[k]
                == s.points[k] by {
                assert(prev.points.take(s.points.len() as int)[k] == s.points[k]);
            }
        }
        assert forall|k: int| s.points.len() <= k < after.points.len() implies exists|i: int|
            0 <= i < draws.len() && #[trigger] after.points[k] == sample_point(
                #[trigger] draws[i],
            ) by {
            if k < prev.points.len() {
                let i = choose|i: int|
                    0 <= i < front.len() && #[trigger] prev.points[k] == sample_point(
                        #[trigger] front[i],
                    );
                assert(after.points[k] == sample_point(draws[i]));
            } else {
                assert(after.points[k] == sample_point(draws[draws.len() - 1]));
            }
        }
    }
}

/// Generating sample data adds no category but the sample categories that
/// were missing, keeps the data points that the store held where they are,
/// and adds at most one data point for each draw, each the data point of one
/// of the draws.
pub proof fn lemma_generate_sample_data_adds_samples(s: StoreView, draws: Seq<SampleDraw>)
    ensures
        s.generate_sample_data(draws).categories == s.seed_sample_categories().categories,
        s.points.len() <= s.generate_sample_data(draws).points.len() <= s.points.len()
            + draws.len(),
        s.generate_sample_data(draws).points.take(s.points.len() as int) == s.points,
        forall|k: int|
            s.points.len() <= k < s.generate_sample_data(draws).points.len() ==> exists|i: int|
                0 <= i < draws.len() && #[trigger] s.generate_sample_data(draws).points[k]
                    == sample_point(#[trigger] draws[i]),
{
    lemma_seeded_categories(s);
    lemma_add_sample_points_adds_samples(s.seed_sample_categories(), draws);
}

/// Where the store holds the four sample categories and the ids of the
/// draws are new and differ from each other, the data points of the draws
/// are added at the end, in the order of the draws, and no category is.
pub proof fn lemma_add_sample_points_appends(s: StoreView, draws: Seq<SampleDraw>)
    requires
        forall|index: int| 0 <= index < 4 ==> has_category(s.categories, #[trigger] sample_name(index)),
        new_ids(s.points, draws),
    ensures
        s.add_sample_points(draws).categories == s.categories,
        s.add_sample_points(draws).points == s.points + draws.map_values(
            |d: SampleDraw| sample_point(d),
        ),
    decreases draws.len(),
{
    let made = draws.map_values(|d: SampleDraw| sample_point(d));
    if draws.len() == 0 {
        assert(s.points + made =~= s.points);
    } else {
        let front = draws.drop_last();
        let last = draws.last();
        let made_front = front.map_values(|d: SampleDraw| sample_point(d));
        lemma_add_sample_points_appends(s, front);
        let prev = s.add_sample_points(front);
        assert(has_category(prev.categories, sample_name((last.category % 4) as int)));
        assert(!has_point(prev.points, last.id)) by {
            assert forall|k: int| 0 <= k < prev.points.len() implies (#[trigger] prev.points[k]).id
                != last.id by {
                if k < s.points.len() {
                    assert(prev.points[k] == s.points[k]);
                    assert(!has_point(s.points, draws[draws.len() - 1].id));
                } else {
                    let i = k - s.points.len();
                    assert(prev.points[k] == made_front[i]);
                    assert(draws[i].id != draws[draws.len() - 1].id);
                }
            }
        }
        assert(prev.points.push(sample_point(last)) =~= s.points + made);
    }
}

/// Where the ids of the draws are new and differ from each other,
/// generating sample data adds one data point for each draw, the data point
/// of that draw, and no category but the sample categories that were missing.
pub proof fn lemma_generate_sample_data_appends(s: StoreView, draws: Seq<SampleDraw>)
    requires
        new_ids(s.points, draws),
    ensures
        s.generate_sample_data(draws).categories == s.seed_sample_categories().categories,
        s.generate_sample_data(draws).points == s.points + draws.map_values(
            |d: SampleDraw| sample_point(d),
        ),
        s.generate_sample_data(draws).points.len() == s.points.len() + draws.len(),
{
    lemma_seeded_categories(s);
    lemma_add_sample_points_appends(s.seed_sample_categories(), draws);
}

fn sample_name_of(index: u64) -> (name: String)
    ensures
        name@ == sample_name(index as int),
{
    if index == 0 {
        String::from_str("Revenue")
    } else if index == 1 {
        String::from_str("Users")
    } else if index == 2 {
        String::from_str("Engagement")
    } else {
        String::from_str("Conversion")
    }
}

fn sample_color_of(index: u64) -> (color: String)
    ensures
        color@ == sample_color(index as int),
{
    if index == 0 {
        String::from_str("#1f77b4")
    } else if index == 1 {
        String::from_str("#ff7f0e")
    } else if index == 2 {
        String::from_str("#2ca02c")
    } else {
        String::from_str("#d62728")
    }
}

fn seed_category(ctx: &ReducerContext, store: &mut Store, index: u64)
    ensures
        final(store)@ == old(store)@.seed_category(index as int),
        final(store)@.well_formed(),
        old(store)@.referential() ==> final(store)@.referential(),
{
    proof {
        use_type_invariant(&*store);
    }
    let name = sample_name_of(index);
    if !store.categories().contains(&name) {
        let description = String::from_str("Sample data for ").concat(name.as_str());
        add_category(ctx, store, name, description, sample_color_of(index));
    }
}

/// Adds each of the four sample categories unless the store holds one of
/// its name, which is then left as it is.
pub fn seed_sample_categories(ctx: &ReducerContext, store: &mut Store)
    ensures
        final(store)@ == old(store)@.seed_sample_categories(),
        final(store)@.well_formed(),
        old(store)@.referential() ==> final(store)@.referential(),
{
    seed_category(ctx, store, 0);
    seed_category(ctx, store, 1);
    seed_category(ctx, store, 2);
    seed_category(ctx, store, 3);
}

/// Adds the data point of a draw and says whether it was added: one whose
/// id is taken is refused.
pub fn insert_sample_point(store: &mut Store, draw: SampleDraw) -> (added: bool)
    ensures
        added == !has_point(old(store)@.points, draw.id),
        final(store)@ == old(store)@.add_sample_point(draw),
        final(store)@.well_formed(),
        old(store)@.referential() ==> final(store)@.referential(),
{
    let category = sample_name_of(draw.category % 4);
    let value = hundredths_to_binary64((draw.value % 10_000) as u32);
    insert_data_point(store, draw.id, draw.timestamp, category, value)
}

/// Seeds the four sample categories, then adds the data points of the
/// draws, in their order. Where the ids of the draws are new and differ from
/// each other, each draw adds its data point.
pub fn generate_sample_data_from(ctx: &ReducerContext, store: &mut Store, draws: &Vec<SampleDraw>)
    ensures
        final(store)@ == old(store)@.generate_sample_data(draws@),
        final(store)@.well_formed(),
        old(store)@.referential() ==> final(store)@.referential(),
        final(store)@.points.take(old(store)@.points.len() as int) == old(store)@.points,
        old(store)@.points.len() <= final(store)@.points.len() <= old(store)@.points.len()
            + draws@.len(),
        new_ids(old(store)@.points, draws@) ==> final(store)@.points == old(store)@.points
            + draws@.map_values(|d: SampleDraw| sample_point(d)),
        new_ids(old(store)@.points, draws@) ==> final(store)@.points.len() == old(store)@.points.len() + draws@.len(),
{
    let ghost before = store@;
    proof {
        lemma_generate_sample_data_adds_samples(before, draws@);
        if new_ids(before.points, draws@) {
            lemma_generate_sample_data_appends(before, draws@);
        }
    }
    seed_sample_categories(ctx, store);
    let mut i: usize = 0;
    while i < draws.len()
        invariant
            i <= draws.len(),
            store@ == before.generate_sample_data(draws@.take(i as int)),
            store@.well_formed(),
            before.referential() ==> store@.referential(),
        decreases draws.len() - i,
    {
        proof {
            assert(draws@.take(i + 1).drop_last() =~= draws@.take(i as int));
        }
        let _ = insert_sample_point(store, draws[i]);
        i = i + 1;
    }
    proof {
        assert(draws@.take(i as int) =~= draws@);
    }
}

/// Seeds the four sample categories, then adds `num_points` data points,
/// each with a category, a value and an id drawn from the generator of the
/// call, at the time of the call. Where the ids drawn are new and differ
/// from each other, `num_points` data points are added.
pub fn generate_sample_data(ctx: &ReducerContext, store: &mut Store, num_points: u32)
    ensures
        exists|draws: Seq<SampleDraw>|
            draws.len() == num_points && final(store)@ == #[trigger] old(store)@.generate_sample_data(draws) && (new_ids(old(store)@.points, draws) ==> final(store)@.points.len() == old(store)@.points.len() + num_points),
        final(store)@.well_formed(),
        old(store)@.referential() ==> final(store)@.referential(),
        final(store)@.points.take(old(store)@.points.len() as int) == old(store)@.points,
        old(store)@.points.len() <= final(store)@.points.len() <= old(store)@.points.len()
            + num_points,
{
    let mut draws: Vec<SampleDraw> = Vec::new();
    let mut i: u32 = 0;
    while i < num_points
        invariant
            i <= num_points,
            draws@.len() == i,
        decreases num_points - i,
    {
        let category = random_u64(ctx);
        let value = random_u64(ctx);
        let id = random_u64(ctx);
        let timestamp = timestamp_micros(ctx);
        draws.push(SampleDraw { category, value, id, timestamp });
        i = i + 1;
    }
    generate_sample_data_from(ctx, store, &draws);
}

} // verus!
