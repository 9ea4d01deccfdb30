use climb_db::models::{Coordinate, KVPair};
use climb_db::{Database, HierarchyError};

fn names(list: &[&str]) -> Vec<Option<String>> {
    list.iter().map(|s| Some(s.to_string())).collect()
}

/// Appending a name adds unconditionally, even when already present;
/// removing deletes every matching occurrence but keeps placeholders.
#[test]
fn name_append_and_remove() {
    let mut db = Database::new();

    let area = db.create_area(vec![Some("The Gallery".to_string()), None]);

    db.add_area_name(area, "The Gallery".to_string()).expect("append");
    db.add_area_name(area, "La Galerie".to_string()).expect("append");

    let row = db.get_area(area).expect("area row");
    assert_eq!(
        row.names,
        vec![
            Some("The Gallery".to_string()),
            None,
            Some("The Gallery".to_string()),
            Some("La Galerie".to_string()),
        ]
    );

    db.remove_area_name(area, "The Gallery".to_string()).expect("remove");
    let row = db.get_area(area).expect("area row");
    assert_eq!(row.names, vec![None, Some("La Galerie".to_string())]);
}

/// Replacing the name array keeps the given order, all entries present.
#[test]
fn set_names_replaces() {
    let mut db = Database::new();

    let area = db.create_area(names(&["Old"]));
    db.set_area_names(area, vec!["New".to_string(), "Nouveau".to_string()])
        .expect("replace");

    let row = db.get_area(area).expect("area row");
    assert_eq!(
        row.names,
        vec![Some("New".to_string()), Some("Nouveau".to_string())]
    );

    assert_eq!(
        db.set_area_names(9, vec!["X".to_string()]),
        Err(HierarchyError::NotFound)
    );
}

/// Climb and formation names follow the same append/remove policies.
#[test]
fn climb_and_formation_names() {
    let mut db = Database::new();

    let climb = db.create_climb(names(&["The Cheat"]));
    db.add_climb_name(climb, "The Chester".to_string()).expect("append");
    db.remove_climb_name(climb, "The Cheat".to_string()).expect("remove");
    let row = db.get_climb(climb).expect("climb row");
    assert_eq!(row.names, vec![Some("The Chester".to_string())]);

    let formation = db.create_formation(names(&["The Diamond"]), None);
    db.add_formation_name(formation, "El Diamante".to_string()).expect("append");
    db.remove_formation_name(formation, "The Diamond".to_string()).expect("remove");
    let row = db.get_formation(formation).expect("formation row");
    assert_eq!(row.names, vec![Some("El Diamante".to_string())]);
}

/// A formation's location is carried opaquely — coordinate bit patterns in,
/// the same bit patterns out — and can be cleared.
#[test]
fn formation_location_round_trip() {
    let mut db = Database::new();

    let here = Coordinate {
        latitude_bits: 43.889938f64.to_bits(),
        longitude_bits: (-103.456774f64).to_bits(),
        srid: Some(4326),
    };
    let formation = db.create_formation(names(&["Hydra Boulder"]), None);

    db.set_formation_location(formation, here).expect("set location");
    let got = db.formation_location(formation).expect("location");
    assert_eq!(f64::from_bits(got.latitude_bits), 43.889938);
    assert_eq!(f64::from_bits(got.longitude_bits), -103.456774);
    assert_eq!(got.srid, Some(4326));

    db.clear_formation_location(formation).expect("clear location");
    assert!(db.formation_location(formation).is_none());
}

/// Creating an area with names and a parent is one transaction; an unknown
/// parent leaves no area behind.
#[test]
fn add_area_transactional() {
    let mut db = Database::new();

    let parent = db.create_area(names(&["Old Baldy Mountain"]));
    let child = db
        .add_area(Some(vec!["The Gallery".to_string()]), Some(parent))
        .expect("add area");
    assert_eq!(db.super_area(child), Some(parent));
    let row = db.get_area(child).expect("area row");
    assert_eq!(row.names, vec![Some("The Gallery".to_string())]);

    let failed = db.add_area(Some(vec!["Nowhere".to_string()]), Some(999));
    assert_eq!(failed, Err(HierarchyError::ParentNotFound));
    assert_eq!(db.area_count(), 2);
}

/// Creating a formation applies the parent steps in order: when both kinds
/// are given, the formation parent wins.
#[test]
fn add_formation_parent_precedence() {
    let mut db = Database::new();

    let area = db.create_area(names(&["Irie Heights"]));
    let wall = db.create_formation(names(&["Wall"]), None);

    let f = db
        .add_formation(Some(vec!["Boulder".to_string()]), Some(area), Some(wall), None)
        .expect("add formation");
    assert_eq!(db.formation_area(f), None);
    assert_eq!(db.formation_super_formation(f), Some(wall));

    let failed = db.add_formation(None, Some(999), None, None);
    assert_eq!(failed, Err(HierarchyError::ParentNotFound));
    assert_eq!(db.formation_count(), 2);
}

/// Creating a climb with descriptions, grades and a parent is atomic: a
/// conflicting description rolls the whole creation back.
#[test]
fn add_climb_transactional() {
    let mut db = Database::new();

    let area = db.create_area(names(&["Irie Heights"]));
    let vermin = db
        .find_grade_type_by_name(&"vermin".to_string())
        .expect("Could not get vermin grade type");
    let grade = db.insert_grade(vermin, "V5".to_string()).expect("grade");

    let climb = db
        .add_climb(
            Some(vec!["The Cheat".to_string()]),
            Some(vec![KVPair {
                key: "brief".to_string(),
                value: "short".to_string(),
            }]),
            Some(vec![grade]),
            Some(area),
            None,
        )
        .expect("add climb");
    assert_eq!(db.climb_area(climb), Some(area));
    assert_eq!(db.climb_grade_ids(climb), vec![grade]);
    assert_eq!(db.climb_description_count(), 1);

    // a batch that repeats a category refuses the whole creation
    let failed = db.add_climb(
        None,
        Some(vec![
            KVPair {
                key: "desc".to_string(),
                value: "one".to_string(),
            },
            KVPair {
                key: "desc".to_string(),
                value: "two".to_string(),
            },
        ]),
        None,
        None,
        None,
    );
    assert_eq!(failed, Err(HierarchyError::UniquenessViolation));
    assert_eq!(db.climb_count(), 1);
    assert_eq!(db.climb_description_count(), 1);

    // an unknown grade refuses the whole creation as well
    let failed = db.add_climb(None, None, Some(vec![999]), None, None);
    assert_eq!(failed, Err(HierarchyError::ForeignKeyViolation));
    assert_eq!(db.climb_count(), 1);
    assert_eq!(db.climb_grade_count(), 1);

    // an unknown parent too, even after valid earlier steps
    let failed = db.add_climb(None, None, Some(vec![grade]), Some(999), None);
    assert_eq!(failed, Err(HierarchyError::ParentNotFound));
    assert_eq!(db.climb_count(), 1);
    assert_eq!(db.climb_grade_count(), 1);
}

/// Display names flatten placeholders away; descriptions list each
/// category name with its text.
#[test]
fn display_getters() {
    let mut db = Database::new();

    let area = db.create_area(vec![
        Some("The Gallery".to_string()),
        None,
        Some("La Galerie".to_string()),
    ]);
    assert_eq!(
        db.area_names(area),
        Some(vec!["The Gallery".to_string(), "La Galerie".to_string()])
    );
    assert_eq!(db.area_names(99), None);

    let climb = db.create_climb(vec![Some("The Cheat".to_string())]);
    db.set_climb_descriptions(
        climb,
        vec![
            KVPair {
                key: "brief".to_string(),
                value: "short".to_string(),
            },
            KVPair {
                key: "hist".to_string(),
                value: "old".to_string(),
            },
        ],
    )
    .expect("descriptions");

    let mut listed = db.climb_descriptions_of(climb);
    listed.sort_by(|x, y| x.key.cmp(&y.key));
    assert_eq!(listed.len(), 2);
    assert_eq!(listed[0].key, "brief");
    assert_eq!(listed[0].value, "short");
    assert_eq!(listed[1].key, "hist");
    assert_eq!(listed[1].value, "old");
}
