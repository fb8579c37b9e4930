//! Sequences of operations, and what holds of the store after each.

use crate::laws::{
    lemma_add_category_keeps_invariants, lemma_add_data_point_keeps_invariants,
    lemma_delete_category_keeps_invariants, lemma_delete_data_point_keeps_invariants,
    lemma_update_data_point_keeps_invariants,
};
use crate::model::StoreView;
use crate::sample::{lemma_generate_sample_data_keeps_invariants, SampleDraw};
use vstd::prelude::*;

verus! {

/// One call of an operation of the store, with what was drawn for it.
#[allow(inconsistent_fields)]
pub enum Operation {
    AddDataPoint { id: u64, timestamp: i64, category: Seq<char>, value: u64 },
    AddCategory { name: Seq<char>, description: Seq<char>, color: Seq<char> },
    UpdateDataPoint { id: u64, category: Option<Seq<char>>, value: Option<u64> },
    DeleteDataPoint { id: u64 },
    DeleteCategory { name: Seq<char>, reassign_to: Option<Seq<char>> },
    GenerateSampleData { draws: Seq<SampleDraw> },
}

impl StoreView {
    /// The store after one call.
    pub open spec fn apply(self, op: Operation) -> StoreView {
        match op {
            Operation::AddDataPoint { id, timestamp, category, value } => self.add_data_point(
                id,
                timestamp,
                category,
                value,
            ),
            Operation::AddCategory { name, description, color } => self.add_category(
                name,
                description,
                color,
            ),
            Operation::UpdateDataPoint { id, category, value } => self.update_data_point(
                id,
                category,
                value,
            ),
            Operation::DeleteDataPoint { id } => self.delete_data_point(id),
            Operation::DeleteCategory { name, reassign_to } => self.delete_category(
                name,
                reassign_to,
            ),
            Operation::GenerateSampleData { draws } => self.generate_sample_data(draws),
        }
    }

    /// The store after the calls of `ops`, one after the other.
    pub open spec fn run(self, ops: Seq<Operation>) -> StoreView
        decreases ops.len(),
    {
        if ops.len() == 0 {
            self
        } else {
            self.run(ops.drop_last()).apply(ops.last())
        }
    }
}

/// Every call keeps each name and each id in one row, and every data point
/// in a category of the store.
pub proof fn lemma_apply_keeps_invariants(s: StoreView, op: Operation)
    requires
        s.well_formed(),
    ensures
        s.apply(op).well_formed(),
        s.referential() ==> s.apply(op).referential(),
{
    match op {
        Operation::AddDataPoint { id, timestamp, category, value } => {
            lemma_add_data_point_keeps_invariants(s, id, timestamp, category, value);
        },
        Operation::AddCategory { name, description, color } => {
            lemma_add_category_keeps_invariants(s, name, description, color);
        },
        Operation::UpdateDataPoint { id, category, value } => {
            lemma_update_data_point_keeps_invariants(s, id, category, value);
        },
        Operation::DeleteDataPoint { id } => {
            lemma_delete_data_point_keeps_invariants(s, id);
        },
        Operation::DeleteCategory { name, reassign_to } => {
            lemma_delete_category_keeps_invariants(s, name, reassign_to);
        },
        Operation::GenerateSampleData { draws } => {
            lemma_generate_sample_data_keeps_invariants(s, draws);
        },
    }
}

/// After every sequence of calls each name and each id is in one row, and
/// every data point is in a category of the store, where that was so before.
pub proof fn lemma_run_keeps_invariants(s: StoreView, ops: Seq<Operation>)
    requires
        s.well_formed(),
    ensures
        s.run(ops).well_formed(),
        s.referential() ==> s.run(ops).referential(),
    decreases ops.len(),
{
    if ops.len() > 0 {
        lemma_run_keeps_invariants(s, ops.drop_last());
        lemma_apply_keeps_invariants(s.run(ops.drop_last()), ops.last());
    }
}

/// From the empty store, after every sequence of calls, each name and each
/// id is in one row, and every data point is in a category of the store.
pub proof fn lemma_history_keeps_invariants(ops: Seq<Operation>)
    ensures
        StoreView::empty().run(ops).well_formed(),
        StoreView::empty().run(ops).referential(),
{
    lemma_run_keeps_invariants(StoreView::empty(), ops);
}

} // verus!
