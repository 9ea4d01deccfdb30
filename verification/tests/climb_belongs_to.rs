use climb_db::{Database, HierarchyError};

fn names(list: &[&str]) -> Vec<Option<String>> {
    list.iter().map(|s| Some(s.to_string())).collect()
}

/// Ensures a cascade delete constraint exists between climbs and the climb
/// containment relation.
#[test]
fn climb_belongs_to_cascade() {
    let mut db = Database::new();

    let climb = db.create_climb(names(&["The Cheat"]));
    let formation = db.create_formation(names(&["North Nostril Cave"]), None);

    db.set_climb_formation_id(climb, formation)
        .expect("Failed to insert relation");

    let deleted = db.remove_climb(climb);
    assert_eq!(deleted, Ok(climb));

    assert!(db.climb_formation(climb).is_none());
    assert_eq!(db.climb_belongs_to_count(), 0);
}

/// Ensures foreign key constraints between areas/formations and the climb
/// containment relation.
#[test]
fn climb_belongs_to_foreign_key() {
    let mut db = Database::new();

    let climb = db.create_climb(names(&["The Cheat"]));

    let relation = db.set_climb_area_id(climb, 1);
    assert!(relation.is_err());

    let relation = db.set_climb_formation_id(climb, 1);
    assert!(relation.is_err());
}

/// Ensures a climb can relate to one of, but not both, an area and a
/// formation.
#[test]
fn climb_belongs_to_one_parent() {
    let mut db = Database::new();

    let climb = db.create_climb(names(&["The Cheat"]));
    let formation = db.create_formation(names(&["North Nostril Cave"]), None);
    let area = db.create_area(names(&["North Nostril Cave"]));

    let relation = db.set_climb_belongs_to(climb, Some(area), Some(formation));
    assert_eq!(relation, Err(HierarchyError::MutualExclusionViolation));

    let relation = db.set_climb_belongs_to(climb, None, None);
    assert_eq!(relation, Err(HierarchyError::MutualExclusionViolation));

    // exactly one parent kind is accepted, and each write replaces the row
    assert!(db.set_climb_belongs_to(climb, Some(area), None).is_ok());
    assert_eq!(db.climb_area(climb), Some(area));
    assert!(db.set_climb_belongs_to(climb, None, Some(formation)).is_ok());
    assert_eq!(db.climb_area(climb), None);
    assert_eq!(db.climb_formation(climb), Some(formation));
    assert_eq!(db.climb_belongs_to_count(), 1);
}

/// Ensures deletion of areas and formations is restricted while they
/// relate a climb.
#[test]
fn climb_belongs_to_restrict() {
    let mut db = Database::new();

    let climb = db.create_climb(names(&["The Cheat"]));
    let formation = db.create_formation(names(&["North Nostril Cave"]), None);

    db.set_climb_formation_id(climb, formation)
        .expect("Failed to insert relation");

    let result = db.remove_formation(formation);
    assert!(result.is_err());
}
