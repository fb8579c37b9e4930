use analytics::{Category, CategoryTable, DataPoint, DataPointTable};

fn text(s: &str) -> String {
    s.to_string()
}

fn point(id: u64, category: &str, value: f64) -> DataPoint {
    DataPoint { id, timestamp: 10, category: text(category), value: value.to_bits() }
}

#[test]
fn category_table_starts_empty() {
    let table = CategoryTable::new();
    assert_eq!(table.len(), 0);
    assert!(!table.contains(&text("Revenue")));
    assert_eq!(table.get(&text("Revenue")), None);
}

#[test]
fn category_table_upsert_creates_then_overwrites() {
    let mut table = CategoryTable::new();
    table.upsert(text("Revenue"), text("money in"), text("#111111"));
    table.upsert(text("Users"), text("people"), text("#222222"));
    assert_eq!(table.len(), 2);
    table.upsert(text("Revenue"), text("income"), text("#333333"));
    assert_eq!(table.len(), 2);
    assert_eq!(
        table.get(&text("Revenue")),
        Some(Category { name: text("Revenue"), description: text("income"), color: text("#333333") })
    );
    assert_eq!(
        table.get(&text("Users")),
        Some(Category { name: text("Users"), description: text("people"), color: text("#222222") })
    );
}

#[test]
fn category_table_iterate_lists_the_rows_in_order() {
    let mut table = CategoryTable::new();
    assert_eq!(table.iterate(), Vec::<Category>::new());
    table.upsert(text("B"), text("b"), text("#b"));
    table.upsert(text("A"), text("a"), text("#a"));
    table.upsert(text("B"), text("bb"), text("#bb"));
    assert_eq!(
        table.iterate(),
        vec![
            Category { name: text("B"), description: text("bb"), color: text("#bb") },
            Category { name: text("A"), description: text("a"), color: text("#a") },
        ]
    );
}

#[test]
fn category_table_delete_reports_presence() {
    let mut table = CategoryTable::new();
    table.upsert(text("A"), text("a"), text("#a"));
    table.upsert(text("B"), text("b"), text("#b"));
    table.upsert(text("C"), text("c"), text("#c"));
    assert!(table.delete(&text("B")));
    assert!(!table.delete(&text("B")));
    assert_eq!(table.len(), 2);
    assert!(table.contains(&text("A")));
    assert!(!table.contains(&text("B")));
    assert!(table.contains(&text("C")));
}

#[test]
fn category_names_are_case_sensitive() {
    let mut table = CategoryTable::new();
    table.upsert(text("users"), text("lower"), text("#1"));
    table.upsert(text("Users"), text("upper"), text("#2"));
    assert_eq!(table.len(), 2);
    assert_eq!(table.get(&text("users")).unwrap().description, "lower");
}

#[test]
fn point_table_insert_refuses_a_taken_id() {
    let mut table = DataPointTable::new();
    assert!(table.insert(point(1, "A", 1.0)));
    assert!(table.insert(point(2, "A", 2.0)));
    assert!(!table.insert(point(1, "B", 9.0)));
    assert_eq!(table.len(), 2);
    assert_eq!(table.get(1), Some(point(1, "A", 1.0)));
}

#[test]
fn point_table_get_and_contains() {
    let mut table = DataPointTable::new();
    assert_eq!(table.get(5), None);
    assert!(table.insert(point(5, "A", 0.5)));
    assert!(table.contains(5));
    assert!(!table.contains(6));
    assert_eq!(table.get(5), Some(point(5, "A", 0.5)));
}

#[test]
fn point_table_update_replaces_the_row_of_the_id() {
    let mut table = DataPointTable::new();
    assert!(table.insert(point(1, "A", 1.0)));
    assert!(table.insert(point(2, "A", 2.0)));
    assert!(table.update(point(2, "B", 7.0)));
    assert!(!table.update(point(3, "B", 7.0)));
    assert_eq!(table.iterate(), vec![point(1, "A", 1.0), point(2, "B", 7.0)]);
}

#[test]
fn point_table_delete_keeps_the_other_rows_in_order() {
    let mut table = DataPointTable::new();
    assert!(table.insert(point(1, "A", 1.0)));
    assert!(table.insert(point(2, "B", 2.0)));
    assert!(table.insert(point(3, "A", 3.0)));
    assert!(table.delete(2));
    assert!(!table.delete(2));
    assert_eq!(table.iterate(), vec![point(1, "A", 1.0), point(3, "A", 3.0)]);
}

#[test]
fn point_table_delete_in_category() {
    let mut table = DataPointTable::new();
    assert!(table.insert(point(1, "A", 1.0)));
    assert!(table.insert(point(2, "B", 2.0)));
    assert!(table.insert(point(3, "A", 3.0)));
    assert!(table.insert(point(4, "C", 4.0)));
    table.delete_in_category(&text("A"));
    assert_eq!(table.iterate(), vec![point(2, "B", 2.0), point(4, "C", 4.0)]);
    table.delete_in_category(&text("none"));
    assert_eq!(table.len(), 2);
}

#[test]
fn point_table_reassign_moves_only_the_rows_of_the_category() {
    let mut table = DataPointTable::new();
    assert!(table.insert(point(1, "A", 1.0)));
    assert!(table.insert(point(2, "B", 2.0)));
    assert!(table.insert(point(3, "A", 3.0)));
    table.reassign(&text("A"), &text("Z"));
    assert_eq!(table.iterate(), vec![point(1, "Z", 1.0), point(2, "B", 2.0), point(3, "Z", 3.0)]);
}

#[test]
fn point_table_any_in_category() {
    let mut table = DataPointTable::new();
    assert!(!table.any_in_category(&text("A")));
    assert!(table.insert(point(1, "A", 1.0)));
    assert!(table.insert(point(2, "B", 2.0)));
    assert!(table.any_in_category(&text("A")));
    assert!(table.any_in_category(&text("B")));
    assert!(!table.any_in_category(&text("C")));
    assert!(table.delete(2));
    assert!(!table.any_in_category(&text("B")));
}

#[test]
fn iterate_of_an_empty_table_is_empty() {
    let table = DataPointTable::new();
    assert_eq!(table.iterate(), Vec::<DataPoint>::new());
}
