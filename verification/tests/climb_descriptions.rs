use climb_db::{Database, HierarchyError};

fn names(list: &[&str]) -> Vec<Option<String>> {
    list.iter().map(|s| Some(s.to_string())).collect()
}

const BRIEF_TEXT: &str = "SDS and follow incuts to a cruxy sequence to gain the lip";

/// Tests the climb-side foreign key constraint.
#[test]
fn climb_fk() {
    let mut db = Database::new();

    let brief_type = db.upsert_climb_description_type("brief".to_string());

    let result = db.add_climb_description(10, brief_type, BRIEF_TEXT.to_string());
    assert!(result.is_err());
}

/// Tests the category-side foreign key constraint.
#[test]
fn climb_description_type_fk() {
    let mut db = Database::new();

    let climb = db.create_climb(names(&["The Cheat"]));

    let result = db.add_climb_description(climb, 10, BRIEF_TEXT.to_string());
    assert!(result.is_err());
}

/// Tests the delete-cascade from climbs to their descriptions.
#[test]
fn climb_cascade() {
    let mut db = Database::new();

    let climb = db.create_climb(names(&["The Cheat"]));
    let brief_type = db.upsert_climb_description_type("brief".to_string());

    db.add_climb_description(climb, brief_type, BRIEF_TEXT.to_string())
        .expect("Failed to add climb description");

    db.remove_climb(climb).expect("Failed to delete climb");

    assert_eq!(db.climb_description_count(), 0);
}

/// Tests the delete-cascade from description categories to descriptions.
#[test]
fn climb_description_type_cascade() {
    let mut db = Database::new();

    let climb = db.create_climb(names(&["The Cheat"]));
    let brief_type = db.upsert_climb_description_type("brief".to_string());

    db.add_climb_description(climb, brief_type, BRIEF_TEXT.to_string())
        .expect("Failed to add climb description");

    db.remove_climb_description_type(brief_type)
        .expect("Failed to delete description type");

    assert_eq!(db.climb_description_count(), 0);
}

/// Expect the default description categories to exist after
/// initialization: exactly "brief", "desc" and "hist".
#[test]
fn initial_description_types() {
    let db = Database::new();

    assert_eq!(db.climb_description_type_count(), 3);
    assert!(db
        .find_climb_description_type_by_name(&"brief".to_string())
        .is_some());
    assert!(db
        .find_climb_description_type_by_name(&"desc".to_string())
        .is_some());
    assert!(db
        .find_climb_description_type_by_name(&"hist".to_string())
        .is_some());
}

/// A description is unique per climb and category; a second insert for the
/// same pair is refused.
#[test]
fn description_unique_per_category() {
    let mut db = Database::new();

    let climb = db.create_climb(names(&["The Cheat"]));
    let brief_type = db.upsert_climb_description_type("brief".to_string());

    db.add_climb_description(climb, brief_type, BRIEF_TEXT.to_string())
        .expect("Failed to add climb description");

    let result = db.add_climb_description(climb, brief_type, "another".to_string());
    assert_eq!(result, Err(HierarchyError::UniquenessViolation));
    assert_eq!(db.climb_description_count(), 1);
}
