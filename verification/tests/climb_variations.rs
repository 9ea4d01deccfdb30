use climb_db::{Database, HierarchyError};

fn names(list: &[&str]) -> Vec<Option<String>> {
    list.iter().map(|s| Some(s.to_string())).collect()
}

/// Tests the no-self-reference constraint on variations.
#[test]
fn no_self_reference() {
    let mut db = Database::new();

    let climb = db.create_climb(names(&["The Cheat"]));

    let result = db.link_climb_variation(climb, climb);
    assert_eq!(result, Err(HierarchyError::SelfReference));
}

/// Tests the root-side foreign key constraint.
#[test]
fn root_fk() {
    let mut db = Database::new();

    let climb = db.create_climb(names(&["The Cheat"]));

    let result = db.link_climb_variation(10, climb);
    assert!(result.is_err());
}

/// Tests the variation-side foreign key constraint.
#[test]
fn variation_fk() {
    let mut db = Database::new();

    let climb = db.create_climb(names(&["The Cheat"]));

    let result = db.link_climb_variation(climb, 10);
    assert!(result.is_err());
}

/// Tests the delete-cascade on the root side.
#[test]
fn root_cascade() {
    let mut db = Database::new();

    let root = db.create_climb(names(&["The Cheat"]));
    let variation = db.create_climb(names(&["The Chester"]));

    db.link_climb_variation(root, variation)
        .expect("Failed to setup variation");

    db.remove_climb(root).expect("Failed to delete root");

    assert_eq!(db.climb_variation_count(), 0);
}

/// Tests the delete-cascade on the variation side.
#[test]
fn variation_cascade() {
    let mut db = Database::new();

    let root = db.create_climb(names(&["The Cheat"]));
    let variation = db.create_climb(names(&["The Chester"]));

    db.link_climb_variation(root, variation)
        .expect("Failed to setup variation");

    db.remove_climb(variation).expect("Failed to delete variation");

    assert_eq!(db.climb_variation_count(), 0);
}
