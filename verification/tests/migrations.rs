use climb_db::Database;

/// A store initialized from scratch carries the full schema and its seed
/// rows.
#[test]
fn from_scratch() {
    let db = Database::new();

    assert_eq!(db.area_count(), 0);
    assert_eq!(db.formation_count(), 0);
    assert_eq!(db.climb_count(), 0);
    assert_eq!(db.grade_type_count(), 1);
    assert_eq!(db.climb_description_type_count(), 3);
    assert_eq!(db.area_belongs_to_count(), 0);
    assert_eq!(db.formation_belongs_to_count(), 0);
    assert_eq!(db.climb_belongs_to_count(), 0);
}
