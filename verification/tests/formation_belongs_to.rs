use climb_db::{Database, HierarchyError, Parent};

fn names(list: &[&str]) -> Vec<Option<String>> {
    list.iter().map(|s| Some(s.to_string())).collect()
}

/// Ensures a cascade delete constraint exists between formations and the
/// area side of the formation containment relation.
#[test]
fn cascade_area() {
    let mut db = Database::new();

    let formation = db.create_formation(names(&["Irie Heights Boulder"]), None);
    let area = db.create_area(names(&["Irie Heights"]));

    db.set_formation_area_id(formation, area)
        .expect("Failed to insert relation");

    let deleted = db.remove_formation(formation);
    assert_eq!(deleted, Ok(formation));

    assert!(db.formation_area(formation).is_none());
    assert_eq!(db.formation_belongs_to_count(), 0);
}

/// Ensures a cascade delete constraint exists between formations and the
/// super-formation side of the formation containment relation.
#[test]
fn cascade_super_formation() {
    let mut db = Database::new();

    let formation = db.create_formation(names(&["The Diamond"]), None);
    let super_formation = db.create_formation(names(&["Long's Peak"]), None);

    db.set_formation_super_formation_id(formation, super_formation)
        .expect("Failed to insert relation");

    let deleted = db.remove_formation(formation);
    assert_eq!(deleted, Ok(formation));

    assert!(db.formation_super_formation(formation).is_none());
    assert_eq!(db.formation_belongs_to_count(), 0);
}

/// Ensures foreign key constraints on both parent kinds of the relation.
#[test]
fn formation_belongs_to_foreign_key() {
    let mut db = Database::new();

    let formation = db.create_formation(names(&["Irie Heights Boulder"]), None);

    let relation = db.set_formation_area_id(formation, 1);
    assert!(relation.is_err());

    let relation = db.set_formation_super_formation_id(formation, 10);
    assert!(relation.is_err());
}

/// Ensures a formation can relate to one of, but not both, an area and a
/// formation.
#[test]
fn formation_belongs_to_one_parent() {
    let mut db = Database::new();

    let formation = db.create_formation(names(&["The Diamond"]), None);
    let super_formation = db.create_formation(names(&["Long's Peak"]), None);
    let area = db.create_area(names(&["Rock Mountain National Park"]));

    let relation = db.set_formation_belongs_to(formation, Some(area), Some(super_formation));
    assert_eq!(relation, Err(HierarchyError::MutualExclusionViolation));

    let relation = db.set_formation_belongs_to(formation, None, None);
    assert_eq!(relation, Err(HierarchyError::MutualExclusionViolation));

    // exactly one parent kind is accepted, and each write replaces the row
    assert!(db.set_formation_belongs_to(formation, Some(area), None).is_ok());
    assert_eq!(db.formation_area(formation), Some(area));
    assert!(db
        .set_formation_belongs_to(formation, None, Some(super_formation))
        .is_ok());
    assert_eq!(db.formation_area(formation), None);
    assert_eq!(db.formation_super_formation(formation), Some(super_formation));
    assert_eq!(db.formation_belongs_to_count(), 1);
}

/// Ensures deletion of an area is restricted while a formation is parented
/// to it.
#[test]
fn restrict_area() {
    let mut db = Database::new();

    let formation = db.create_formation(names(&["Irie Heights Boulder"]), None);
    let area = db.create_area(names(&["Irie Heights"]));

    db.set_formation_area_id(formation, area)
        .expect("Failed to insert relation");

    let result = db.remove_area(area);
    assert!(result.is_err());
}

/// Ensures deletion of a formation is restricted while another formation
/// is parented to it.
#[test]
fn restrict_super_formation() {
    let mut db = Database::new();

    let formation = db.create_formation(names(&["The Diamond"]), None);
    let super_formation = db.create_formation(names(&["Long's Peak"]), None);

    db.set_formation_super_formation_id(formation, super_formation)
        .expect("Failed to insert relation");

    let result = db.remove_formation(super_formation);
    assert!(result.is_err());
}

/// Ensures a formation cannot belong to itself. This is just an edge case
/// of the no-cycles check.
#[test]
fn formation_belongs_to_no_self_parent() {
    let mut db = Database::new();

    let formation = db.create_formation(names(&["The Diamond"]), None);

    let result = db.set_formation_parent(formation, Parent::Formation(formation));
    assert_eq!(result, Err(HierarchyError::SelfReference));
}

/// Ensures cycles cannot be made between formations.
#[test]
fn formation_belongs_to_no_cycles() {
    let mut db = Database::new();

    let formation = db.create_formation(names(&["The Diamond"]), None);
    let super_formation = db.create_formation(names(&["Long's Peak"]), None);

    db.set_formation_super_formation_id(formation, super_formation)
        .expect("Failed to insert relation");

    let result = db.set_formation_super_formation_id(super_formation, formation);
    assert_eq!(result, Err(HierarchyError::CycleDetected));
}
