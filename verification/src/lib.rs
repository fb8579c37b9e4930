//! A store of time-series measurements: data points, each in a category,
//! and the operations that keep every data point in a category of the store.

pub mod binary64;
pub mod category;
pub mod data_point;
pub mod history;
pub mod host;
pub mod laws;
pub mod model;
pub mod sample;
pub mod store;

pub use category::{Category, CategoryTable, CategoryView};
pub use data_point::{DataPoint, DataPointTable, DataPointView};
pub use model::StoreView;
pub use sample::{
    generate_sample_data, generate_sample_data_from, insert_sample_point, seed_sample_categories,
    SampleDraw,
};
pub use store::{
    add_category, add_data_point, delete_category, delete_data_point, ensure_category_exists,
    insert_data_point, update_data_point, Store,
};
