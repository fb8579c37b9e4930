use analytics::{
    add_category, add_data_point, delete_category, delete_data_point, ensure_category_exists,
    insert_data_point, update_data_point, Category, DataPoint, Store,
};
use spacetimedb::{ReducerContext, Timestamp};

fn text(s: &str) -> String {
    s.to_string()
}

fn context(micros: i64) -> ReducerContext {
    let mut ctx = ReducerContext::__dummy();
    ctx.timestamp = Timestamp::from_micros_since_unix_epoch(micros);
    ctx
}

fn category(name: &str, description: &str, color: &str) -> Category {
    Category { name: text(name), description: text(description), color: text(color) }
}

fn point(id: u64, timestamp: i64, category: &str, value: f64) -> DataPoint {
    DataPoint { id, timestamp, category: text(category), value: value.to_bits() }
}

/// Every data point of the store belongs to a category of the store.
fn every_point_has_its_category(store: &Store) -> bool {
    store.points().iterate().iter().all(|p| store.categories().contains(&p.category))
}

/// Categories A and B, and the data points 1 and 2 in A.
fn two_points_in_a() -> Store {
    let ctx = context(0);
    let mut store = Store::new();
    add_category(&ctx, &mut store, text("A"), text("first"), text("#aaaaaa"));
    add_category(&ctx, &mut store, text("B"), text("second"), text("#bbbbbb"));
    assert!(insert_data_point(&mut store, 1, 100, text("A"), 1.5f64.to_bits()));
    assert!(insert_data_point(&mut store, 2, 200, text("A"), 2.5f64.to_bits()));
    store
}

#[test]
fn new_store_is_empty() {
    let store = Store::new();
    assert_eq!(store.categories().len(), 0);
    assert_eq!(store.points().len(), 0);
}

#[test]
fn add_category_twice_leaves_one_row() {
    let ctx = context(0);
    let mut store = Store::new();
    add_category(&ctx, &mut store, text("n"), text("d"), text("c"));
    add_category(&ctx, &mut store, text("n"), text("d"), text("c"));
    assert_eq!(store.categories().len(), 1);
    assert_eq!(store.categories().get(&text("n")), Some(category("n", "d", "c")));
}

#[test]
fn add_category_overwrites_description_and_color() {
    let ctx = context(0);
    let mut store = Store::new();
    add_category(&ctx, &mut store, text("n"), text("old"), text("#000000"));
    add_category(&ctx, &mut store, text("n"), text("new"), text("#ffffff"));
    assert_eq!(store.categories().len(), 1);
    assert_eq!(store.categories().get(&text("n")), Some(category("n", "new", "#ffffff")));
}

#[test]
fn add_data_point_creates_an_unknown_category() {
    let ctx = context(1_700_000_000_000_000);
    let mut store = Store::new();
    let id = add_data_point(&ctx, &mut store, text("NewCat"), 3.5f64.to_bits());
    assert_eq!(
        store.categories().get(&text("NewCat")),
        Some(category("NewCat", "Auto-created category for NewCat", "#1f77b4"))
    );
    assert_eq!(store.categories().len(), 1);
    assert_eq!(store.points().len(), 1);
    let row = store.points().get(id).unwrap();
    assert_eq!(row, point(id, 1_700_000_000_000_000, "NewCat", 3.5));
    assert_eq!(f64::from_bits(row.value), 3.5);
}

#[test]
fn add_data_point_leaves_a_known_category_alone() {
    let ctx = context(5);
    let mut store = Store::new();
    add_category(&ctx, &mut store, text("Known"), text("mine"), text("#123456"));
    let id = add_data_point(&ctx, &mut store, text("Known"), (-2.25f64).to_bits());
    assert_eq!(store.categories().len(), 1);
    assert_eq!(store.categories().get(&text("Known")), Some(category("Known", "mine", "#123456")));
    assert_eq!(store.points().get(id), Some(point(id, 5, "Known", -2.25)));
}

#[test]
fn add_data_point_draws_a_new_id_each_time() {
    let ctx = context(9);
    let mut store = Store::new();
    let a = add_data_point(&ctx, &mut store, text("c"), 0.0f64.to_bits());
    let b = add_data_point(&ctx, &mut store, text("c"), 0.0f64.to_bits());
    let c = add_data_point(&ctx, &mut store, text("c"), 0.0f64.to_bits());
    assert_ne!(a, b);
    assert_ne!(b, c);
    assert_ne!(a, c);
    assert_eq!(store.points().len(), 3);
    assert_eq!(store.categories().len(), 1);
}

#[test]
fn add_data_point_stamps_the_time_of_the_call() {
    let mut store = Store::new();
    let early = add_data_point(&context(-7), &mut store, text("c"), 1.0f64.to_bits());
    let late = add_data_point(&context(42), &mut store, text("c"), 1.0f64.to_bits());
    assert_eq!(store.points().get(early).unwrap().timestamp, -7);
    assert_eq!(store.points().get(late).unwrap().timestamp, 42);
}

#[test]
fn insert_data_point_refuses_a_taken_id() {
    let mut store = Store::new();
    assert!(insert_data_point(&mut store, 7, 1, text("A"), 1.0f64.to_bits()));
    assert!(!insert_data_point(&mut store, 7, 2, text("B"), 2.0f64.to_bits()));
    assert_eq!(store.points().len(), 1);
    assert_eq!(store.points().get(7), Some(point(7, 1, "A", 1.0)));
    assert!(store.categories().contains(&text("B")));
    assert!(every_point_has_its_category(&store));
}

#[test]
fn ensure_category_exists_creates_once() {
    let mut store = Store::new();
    ensure_category_exists(&mut store, &text("x"));
    ensure_category_exists(&mut store, &text("x"));
    assert_eq!(store.categories().len(), 1);
    assert_eq!(
        store.categories().get(&text("x")),
        Some(category("x", "Auto-created category for x", "#1f77b4"))
    );
}

#[test]
fn update_value_only_leaves_the_category() {
    let ctx = context(0);
    let mut store = two_points_in_a();
    assert!(update_data_point(&ctx, &mut store, 1, None, Some(7.0f64.to_bits())));
    assert_eq!(store.points().get(1), Some(point(1, 100, "A", 7.0)));
    assert_eq!(store.points().get(2), Some(point(2, 200, "A", 2.5)));
    assert_eq!(store.categories().len(), 2);
}

#[test]
fn update_category_only_leaves_the_value() {
    let ctx = context(0);
    let mut store = two_points_in_a();
    assert!(update_data_point(&ctx, &mut store, 2, Some(text("B")), None));
    assert_eq!(store.points().get(2), Some(point(2, 200, "B", 2.5)));
    assert_eq!(store.points().get(1), Some(point(1, 100, "A", 1.5)));
}

#[test]
fn update_both_fields() {
    let ctx = context(0);
    let mut store = two_points_in_a();
    assert!(update_data_point(&ctx, &mut store, 1, Some(text("B")), Some(0.25f64.to_bits())));
    assert_eq!(store.points().get(1), Some(point(1, 100, "B", 0.25)));
}

#[test]
fn update_with_nothing_changes_nothing() {
    let ctx = context(0);
    let mut store = two_points_in_a();
    assert!(update_data_point(&ctx, &mut store, 1, None, None));
    assert_eq!(store.points().iterate(), vec![point(1, 100, "A", 1.5), point(2, 200, "A", 2.5)]);
}

#[test]
fn update_to_an_unknown_category_creates_it() {
    let ctx = context(0);
    let mut store = two_points_in_a();
    assert!(update_data_point(&ctx, &mut store, 1, Some(text("Fresh")), None));
    assert_eq!(
        store.categories().get(&text("Fresh")),
        Some(category("Fresh", "Auto-created category for Fresh", "#1f77b4"))
    );
    assert_eq!(store.points().get(1), Some(point(1, 100, "Fresh", 1.5)));
    assert!(every_point_has_its_category(&store));
}

#[test]
fn update_of_a_missing_id_changes_nothing() {
    let ctx = context(0);
    let mut store = two_points_in_a();
    assert!(!update_data_point(&ctx, &mut store, 99, Some(text("Ghost")), Some(7.0f64.to_bits())));
    assert_eq!(store.categories().len(), 2);
    assert!(!store.categories().contains(&text("Ghost")));
    assert_eq!(store.points().iterate(), vec![point(1, 100, "A", 1.5), point(2, 200, "A", 2.5)]);
}

#[test]
fn delete_data_point_reports_presence() {
    let ctx = context(0);
    let mut store = two_points_in_a();
    assert!(delete_data_point(&ctx, &mut store, 1));
    assert!(!delete_data_point(&ctx, &mut store, 1));
    assert_eq!(store.points().iterate(), vec![point(2, 200, "A", 2.5)]);
    assert_eq!(store.categories().len(), 2);
}

#[test]
fn delete_category_with_reassignment_moves_the_points() {
    let ctx = context(0);
    let mut store = two_points_in_a();
    assert!(delete_category(&ctx, &mut store, text("A"), Some(text("B"))));
    assert!(!store.categories().contains(&text("A")));
    assert_eq!(store.categories().get(&text("B")), Some(category("B", "second", "#bbbbbb")));
    assert_eq!(store.points().get(1).unwrap().category, "B");
    assert_eq!(store.points().get(2).unwrap().category, "B");
    assert_eq!(store.points().iterate(), vec![point(1, 100, "B", 1.5), point(2, 200, "B", 2.5)]);
    assert!(every_point_has_its_category(&store));
}

#[test]
fn delete_category_without_reassignment_deletes_the_points() {
    let ctx = context(0);
    let mut store = two_points_in_a();
    assert!(insert_data_point(&mut store, 3, 300, text("B"), 3.5f64.to_bits()));
    assert!(delete_category(&ctx, &mut store, text("A"), None));
    assert!(!store.categories().contains(&text("A")));
    assert_eq!(store.points().get(1), None);
    assert_eq!(store.points().get(2), None);
    assert_eq!(store.points().iterate(), vec![point(3, 300, "B", 3.5)]);
    assert!(every_point_has_its_category(&store));
}

#[test]
fn delete_category_creates_an_unknown_target() {
    let ctx = context(0);
    let mut store = two_points_in_a();
    assert!(delete_category(&ctx, &mut store, text("A"), Some(text("Elsewhere"))));
    assert_eq!(
        store.categories().get(&text("Elsewhere")),
        Some(category("Elsewhere", "Auto-created category for Elsewhere", "#1f77b4"))
    );
    assert_eq!(store.points().get(1).unwrap().category, "Elsewhere");
    assert_eq!(store.points().get(2).unwrap().category, "Elsewhere");
    assert_eq!(store.categories().len(), 2);
    assert!(every_point_has_its_category(&store));
}

#[test]
fn delete_category_of_an_unknown_name_changes_nothing() {
    let ctx = context(0);
    let mut store = two_points_in_a();
    assert!(!delete_category(&ctx, &mut store, text("Nope"), Some(text("Target"))));
    assert!(!delete_category(&ctx, &mut store, text("Nope"), None));
    assert_eq!(store.categories().len(), 2);
    assert!(!store.categories().contains(&text("Target")));
    assert_eq!(store.points().len(), 2);
}

#[test]
fn delete_category_without_points() {
    let ctx = context(0);
    let mut store = two_points_in_a();
    assert!(delete_category(&ctx, &mut store, text("B"), None));
    assert_eq!(store.categories().len(), 1);
    assert_eq!(store.points().len(), 2);
    assert!(every_point_has_its_category(&store));
}

#[test]
fn delete_category_onto_itself_keeps_the_category_and_its_points() {
    let ctx = context(0);
    let mut store = two_points_in_a();
    assert!(delete_category(&ctx, &mut store, text("A"), Some(text("A"))));
    assert_eq!(store.categories().get(&text("A")), Some(category("A", "first", "#aaaaaa")));
    assert_eq!(store.categories().len(), 2);
    assert_eq!(store.points().iterate(), vec![point(1, 100, "A", 1.5), point(2, 200, "A", 2.5)]);
    assert!(every_point_has_its_category(&store));
}

#[test]
fn delete_category_onto_itself_without_points_keeps_every_point_in_a_category() {
    let ctx = context(0);
    let mut store = two_points_in_a();
    assert!(delete_category(&ctx, &mut store, text("B"), Some(text("B"))));
    assert!(!store.categories().contains(&text("B")));
    assert_eq!(store.categories().len(), 1);
    assert_eq!(store.points().iterate(), vec![point(1, 100, "A", 1.5), point(2, 200, "A", 2.5)]);
    assert!(every_point_has_its_category(&store));
}

#[test]
fn names_and_ids_stay_unique_through_a_history() {
    let ctx = context(3);
    let mut store = two_points_in_a();
    add_category(&ctx, &mut store, text("A"), text("again"), text("#a0a0a0"));
    assert!(!insert_data_point(&mut store, 1, 5, text("B"), 0));
    assert!(update_data_point(&ctx, &mut store, 2, Some(text("B")), None));
    assert!(delete_category(&ctx, &mut store, text("A"), Some(text("B"))));
    let _ = add_data_point(&ctx, &mut store, text("A"), 0);
    let names: Vec<String> = store.categories().iterate().into_iter().map(|c| c.name).collect();
    for (i, name) in names.iter().enumerate() {
        assert!(!names[..i].contains(name));
    }
    let ids: Vec<u64> = store.points().iterate().into_iter().map(|p| p.id).collect();
    for (i, id) in ids.iter().enumerate() {
        assert!(!ids[..i].contains(id));
    }
    assert_eq!(names, vec![text("B"), text("A")]);
    assert_eq!(ids.len(), 3);
}

#[test]
fn every_point_keeps_a_category_through_a_history() {
    let ctx = context(3);
    let mut store = Store::new();
    let a = add_data_point(&ctx, &mut store, text("one"), 1.0f64.to_bits());
    assert!(every_point_has_its_category(&store));
    let b = add_data_point(&ctx, &mut store, text("two"), 2.0f64.to_bits());
    assert!(every_point_has_its_category(&store));
    add_category(&ctx, &mut store, text("one"), text("renamed"), text("#010101"));
    assert!(every_point_has_its_category(&store));
    assert!(update_data_point(&ctx, &mut store, a, Some(text("three")), None));
    assert!(every_point_has_its_category(&store));
    assert!(delete_category(&ctx, &mut store, text("two"), Some(text("four"))));
    assert!(every_point_has_its_category(&store));
    assert!(delete_category(&ctx, &mut store, text("three"), None));
    assert!(every_point_has_its_category(&store));
    assert!(!delete_data_point(&ctx, &mut store, a));
    assert!(delete_data_point(&ctx, &mut store, b));
    assert!(every_point_has_its_category(&store));
    assert_eq!(store.points().len(), 0);
    assert_eq!(store.categories().len(), 2);
    assert!(store.categories().contains(&text("one")));
    assert!(store.categories().contains(&text("four")));
}
