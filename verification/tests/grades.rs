use climb_db::Database;

/// Allows insertion of a new, unique, grading system.
#[test]
fn insert_grade_type() {
    let mut db = Database::new();

    let name = "basecamp".to_string();

    let result = db.insert_grade_type(name.clone());
    assert!(result.is_ok());

    let grade_type = result.unwrap();
    let row = db.get_grade_type(grade_type).expect("Missing grade type");
    assert_eq!(row.name, name);
}

/// Expect the default grading systems to exist: exactly one, named
/// "vermin".
#[test]
fn default_grade_types() {
    let db = Database::new();

    assert_eq!(db.grade_type_count(), 1);
    assert!(db.find_grade_type_by_name(&"vermin".to_string()).is_some());
}

/// Ensures grades get removed when removing their grading system.
#[test]
fn grades_cascade_on_grade_type_delete() {
    let mut db = Database::new();

    let grade_type = db
        .find_grade_type_by_name(&"vermin".to_string())
        .expect("Could not get vermin grade type");

    let inserted = db.insert_grade(grade_type, "V5".to_string());
    assert!(inserted.is_ok());
    assert_eq!(db.grade_count(), 1);

    let delete_grade_type_result = db.remove_grade_type(grade_type);
    assert!(delete_grade_type_result.is_ok());

    assert_eq!(db.grade_count(), 0);
}

/// A grade value is unique within its grading system, and a system's name
/// is unique outright.
#[test]
fn grade_uniqueness() {
    let mut db = Database::new();

    let vermin = db
        .find_grade_type_by_name(&"vermin".to_string())
        .expect("Could not get vermin grade type");

    db.insert_grade(vermin, "V5".to_string()).expect("first V5");
    assert!(db.insert_grade(vermin, "V5".to_string()).is_err());

    assert!(db.insert_grade_type("vermin".to_string()).is_err());

    let other = db.insert_grade_type("basecamp".to_string()).expect("new system");
    assert!(db.insert_grade(other, "V5".to_string()).is_ok());
}
