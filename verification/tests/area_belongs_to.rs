use climb_db::{Database, HierarchyError};

fn names(list: &[&str]) -> Vec<Option<String>> {
    list.iter().map(|s| Some(s.to_string())).collect()
}

/// Ensures a cascade delete constraint exists between areas and
/// the area containment relation.
#[test]
fn area_belongs_to_cascade() {
    let mut db = Database::new();

    let area = db.create_area(names(&["The Gallery"]));
    let super_area = db.create_area(names(&["Old Baldy Mountain"]));

    db.set_area_parent(area, super_area)
        .expect("Failed to insert relation");

    let deleted = db.remove_area(area);
    assert_eq!(deleted, Ok(area));

    assert!(db.super_area(area).is_none());
    assert_eq!(db.area_belongs_to_count(), 0);
}

/// Tests the foreign key constraints on the relation.
#[test]
fn area_belongs_to_foreign_key() {
    let mut db = Database::new();

    let area = db.create_area(names(&["The Gallery"]));

    let relation = db.set_area_parent(10, area);
    assert!(relation.is_err());

    let relation = db.set_area_parent(area, 10);
    assert!(relation.is_err());
}

/// Tests the restriction on deleting a referenced parent.
#[test]
fn area_belongs_to_restrict() {
    let mut db = Database::new();

    let area = db.create_area(names(&["The Gallery"]));
    let super_area = db.create_area(names(&["Old Baldy Mountain"]));

    db.set_area_parent(area, super_area)
        .expect("Failed to insert relation");

    let result = db.remove_area(super_area);
    assert!(result.is_err());
}

/// Ensures an area cannot belong to itself. This is just an edge case of
/// the no-cycles check.
#[test]
fn area_belongs_to_no_self_parent() {
    let mut db = Database::new();

    let area = db.create_area(names(&["The Gallery"]));

    let result = db.set_area_parent(area, area);
    assert_eq!(result, Err(HierarchyError::SelfReference));
}

/// Ensures cycles cannot be made between areas.
#[test]
fn area_belongs_to_no_cycles() {
    let mut db = Database::new();

    let area = db.create_area(names(&["The Gallery"]));
    let super_area = db.create_area(names(&["Old Baldy Mountain"]));

    db.set_area_parent(area, super_area)
        .expect("Failed to insert relation");

    let result = db.set_area_parent(super_area, area);
    assert_eq!(result, Err(HierarchyError::CycleDetected));
}
