use climb_db::{Database, HierarchyError, KVPair};

fn names(list: &[&str]) -> Vec<Option<String>> {
    list.iter().map(|s| Some(s.to_string())).collect()
}

/// Inserting the same climb-to-grade pair twice does not create two rows.
#[test]
fn climb_grade_link_unique() {
    let mut db = Database::new();

    let climb = db.create_climb(names(&["The Cheat"]));
    let vermin = db
        .find_grade_type_by_name(&"vermin".to_string())
        .expect("Could not get vermin grade type");
    let grade = db.insert_grade(vermin, "V5".to_string()).expect("grade");

    assert!(db.add_climb_grade(climb, grade).is_ok());
    assert!(db.add_climb_grade(climb, grade).is_ok());
    assert_eq!(db.climb_grade_count(), 1);
    assert_eq!(db.climb_grade_ids(climb), vec![grade]);

    db.remove_climb_grade(climb, grade);
    db.remove_climb_grade(climb, grade);
    assert_eq!(db.climb_grade_count(), 0);
}

/// Linking requires both endpoints to exist.
#[test]
fn climb_grade_link_foreign_keys() {
    let mut db = Database::new();

    let climb = db.create_climb(names(&["The Cheat"]));
    let vermin = db
        .find_grade_type_by_name(&"vermin".to_string())
        .expect("Could not get vermin grade type");
    let grade = db.insert_grade(vermin, "V5".to_string()).expect("grade");

    assert_eq!(
        db.add_climb_grade(10, grade),
        Err(HierarchyError::ForeignKeyViolation)
    );
    assert_eq!(
        db.add_climb_grade(climb, 10),
        Err(HierarchyError::ForeignKeyViolation)
    );
}

/// Linking a whole list of grades is atomic: one unknown grade and nothing
/// is written.
#[test]
fn set_climb_grades_atomic() {
    let mut db = Database::new();

    let climb = db.create_climb(names(&["The Cheat"]));
    let vermin = db
        .find_grade_type_by_name(&"vermin".to_string())
        .expect("Could not get vermin grade type");
    let g5 = db.insert_grade(vermin, "V5".to_string()).expect("grade");
    let g6 = db.insert_grade(vermin, "V6".to_string()).expect("grade");

    assert!(db.set_climb_grades(climb, vec![g5, g6, 99]).is_err());
    assert_eq!(db.climb_grade_count(), 0);

    assert!(db.set_climb_grades(climb, vec![g5, g6, g5]).is_ok());
    assert_eq!(db.climb_grade_count(), 2);
}

/// An ascent belongs to its climb; deleting the climb deletes the ascent
/// and every association row mentioning it.
#[test]
fn ascent_cascades() {
    let mut db = Database::new();

    let climb = db.create_climb(names(&["The Cheat"]));
    let ascent = db.add_ascent(climb, None).expect("ascent");
    let climber = db.create_climber("Lynn".to_string(), "Hill".to_string());
    let vermin = db
        .find_grade_type_by_name(&"vermin".to_string())
        .expect("Could not get vermin grade type");
    let grade = db.insert_grade(vermin, "V5".to_string()).expect("grade");

    assert!(db.link_ascent_party(ascent, climber).is_ok());
    assert!(db.link_ascent_grade(ascent, grade).is_ok());
    assert_eq!(db.climb_ascent_ids(climb), vec![ascent]);

    db.remove_climb(climb).expect("Failed to delete climb");

    assert_eq!(db.ascent_count(), 0);
    assert_eq!(db.ascent_party_count(), 0);
    assert_eq!(db.ascent_grade_count(), 0);
}

/// Removing an ascent, or a climber, removes the association rows that
/// mention it and nothing else.
#[test]
fn ascent_and_climber_removal() {
    let mut db = Database::new();

    let climb = db.create_climb(names(&["The Cheat"]));
    let first = db.add_ascent(climb, None).expect("ascent");
    let second = db.add_ascent(climb, None).expect("ascent");
    let climber = db.create_climber("Lynn".to_string(), "Hill".to_string());

    assert!(db.link_ascent_party(first, climber).is_ok());
    assert!(db.link_ascent_party(second, climber).is_ok());

    db.remove_ascent(first).expect("Failed to delete ascent");
    assert_eq!(db.ascent_count(), 1);
    assert_eq!(db.ascent_party_count(), 1);

    db.remove_climber(climber).expect("Failed to delete climber");
    assert_eq!(db.ascent_party_count(), 0);
}

/// An ascent cannot be recorded against a missing climb.
#[test]
fn ascent_requires_climb() {
    let mut db = Database::new();
    assert_eq!(
        db.add_ascent(3, None),
        Err(HierarchyError::ForeignKeyViolation)
    );
}

/// A batch of descriptions resolves keys by category name, skips unknown
/// keys, and is atomic on conflict.
#[test]
fn set_climb_descriptions_batch() {
    let mut db = Database::new();

    let climb = db.create_climb(names(&["The Cheat"]));

    let batch = vec![
        KVPair {
            key: "brief".to_string(),
            value: "short".to_string(),
        },
        KVPair {
            key: "nonsense".to_string(),
            value: "skipped".to_string(),
        },
        KVPair {
            key: "hist".to_string(),
            value: "first climbed long ago".to_string(),
        },
    ];
    assert!(db.set_climb_descriptions(climb, batch).is_ok());
    assert_eq!(db.climb_description_count(), 2);

    // a second batch naming "brief" again conflicts and writes nothing
    let conflicting = vec![
        KVPair {
            key: "desc".to_string(),
            value: "long".to_string(),
        },
        KVPair {
            key: "brief".to_string(),
            value: "another".to_string(),
        },
    ];
    assert_eq!(
        db.set_climb_descriptions(climb, conflicting),
        Err(HierarchyError::UniquenessViolation)
    );
    assert_eq!(db.climb_description_count(), 2);

    // a batch that repeats a key internally conflicts too
    let doubled = vec![
        KVPair {
            key: "desc".to_string(),
            value: "one".to_string(),
        },
        KVPair {
            key: "desc".to_string(),
            value: "two".to_string(),
        },
    ];
    assert_eq!(
        db.set_climb_descriptions(climb, doubled),
        Err(HierarchyError::UniquenessViolation)
    );
    assert_eq!(db.climb_description_count(), 2);
}

/// Upserting a description category returns the existing id for a known
/// name and a fresh id otherwise.
#[test]
fn upsert_description_type() {
    let mut db = Database::new();

    let brief = db.upsert_climb_description_type("brief".to_string());
    let again = db.upsert_climb_description_type("brief".to_string());
    assert_eq!(brief, again);
    assert_eq!(db.climb_description_type_count(), 3);

    let beta = db.upsert_climb_description_type("beta".to_string());
    assert_ne!(beta, brief);
    assert_eq!(db.climb_description_type_count(), 4);
}
