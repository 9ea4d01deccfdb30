use climb_db::{Database, HierarchyError, Parent};

fn names(list: &[&str]) -> Vec<Option<String>> {
    list.iter().map(|s| Some(s.to_string())).collect()
}

/// End-to-end: create two areas, nest one under the other, watch the
/// reverse edge and the restricted delete fail, clear the edge, and watch
/// the delete succeed.
#[test]
fn nested_areas_end_to_end() {
    let mut db = Database::new();

    let a = db.create_area(names(&["The Gallery"]));
    let b = db.create_area(names(&["Old Baldy Mountain"]));

    assert!(db.set_area_parent(a, b).is_ok());
    assert_eq!(db.set_area_parent(b, a), Err(HierarchyError::CycleDetected));
    assert_eq!(db.remove_area(b), Err(HierarchyError::RestrictedDelete));

    db.clear_area_parent(a);
    assert_eq!(db.remove_area(b), Ok(b));
}

/// End-to-end: a formation's parent kind is enforced by overwrite, not
/// accumulation — setting an area parent leaves no formation parent, and
/// vice versa.
#[test]
fn formation_parent_overwrite() {
    let mut db = Database::new();

    let f = db.create_formation(names(&["The Diamond"]), None);
    let x = db.create_area(names(&["Rock Mountain National Park"]));
    let y = db.create_formation(names(&["Long's Peak"]), None);

    assert!(db.set_formation_parent(f, Parent::Area(x)).is_ok());
    assert_eq!(db.formation_area(f), Some(x));
    assert_eq!(db.formation_super_formation(f), None);

    assert!(db.set_formation_parent(f, Parent::Formation(y)).is_ok());
    assert_eq!(db.formation_area(f), None);
    assert_eq!(db.formation_super_formation(f), Some(y));

    assert_eq!(db.formation_belongs_to_count(), 1);
}

/// Idempotence: setting the same parent twice keeps exactly one row with
/// the same target.
#[test]
fn set_area_parent_idempotent() {
    let mut db = Database::new();

    let x = db.create_area(names(&["The Gallery"]));
    let y = db.create_area(names(&["Old Baldy Mountain"]));

    assert!(db.set_area_parent(x, y).is_ok());
    assert!(db.set_area_parent(x, y).is_ok());

    assert_eq!(db.area_belongs_to_count(), 1);
    assert_eq!(db.super_area(x), Some(y));
}

/// A cycle across a longer chain is rejected too.
#[test]
fn deep_cycle_rejected() {
    let mut db = Database::new();

    let a = db.create_area(names(&["A"]));
    let b = db.create_area(names(&["B"]));
    let c = db.create_area(names(&["C"]));

    assert!(db.set_area_parent(a, b).is_ok());
    assert!(db.set_area_parent(b, c).is_ok());

    assert_eq!(db.set_area_parent(c, a), Err(HierarchyError::CycleDetected));
    // reparenting within the chain is still allowed where no loop closes
    assert!(db.set_area_parent(a, c).is_ok());
}

/// Ancestors walk the chain to the root, nearest parent first, across
/// both node kinds.
#[test]
fn ancestors_walk_to_root() {
    let mut db = Database::new();

    let region = db.create_area(names(&["Region"]));
    let crag = db.create_area(names(&["Crag"]));
    let wall = db.create_formation(names(&["Wall"]), None);
    let boulder = db.create_formation(names(&["Boulder"]), None);
    let climb = db.create_climb(names(&["Route"]));

    assert!(db.set_area_parent(crag, region).is_ok());
    assert!(db.set_formation_parent(wall, Parent::Area(crag)).is_ok());
    assert!(db.set_formation_parent(boulder, Parent::Formation(wall)).is_ok());
    assert!(db.set_climb_parent(climb, Parent::Formation(boulder)).is_ok());

    let chain = db.climb_ancestors(climb);
    assert_eq!(
        chain,
        vec![
            Parent::Formation(boulder),
            Parent::Formation(wall),
            Parent::Area(crag),
            Parent::Area(region),
        ]
    );

    assert_eq!(
        db.ancestors_of(Parent::Area(crag)),
        vec![Parent::Area(region)]
    );
    assert_eq!(db.ancestors_of(Parent::Area(region)), vec![]);
}

/// Children listings give exactly the directly nested entities.
#[test]
fn children_listings() {
    let mut db = Database::new();

    let region = db.create_area(names(&["Region"]));
    let crag_one = db.create_area(names(&["First Crag"]));
    let crag_two = db.create_area(names(&["Second Crag"]));
    let wall = db.create_formation(names(&["Wall"]), None);
    let climb = db.create_climb(names(&["Route"]));

    assert!(db.set_area_parent(crag_one, region).is_ok());
    assert!(db.set_area_parent(crag_two, region).is_ok());
    assert!(db.set_formation_parent(wall, Parent::Area(region)).is_ok());
    assert!(db.set_climb_parent(climb, Parent::Area(region)).is_ok());

    let mut subs = db.sub_areas(region);
    subs.sort();
    assert_eq!(subs, vec![crag_one, crag_two]);

    assert_eq!(db.area_formations(region), vec![wall]);
    assert_eq!(db.area_climbs(region), vec![climb]);
    assert_eq!(db.formation_climbs(wall), vec![] as Vec<u64>);

    let mut all = db.areas(None);
    all.sort();
    assert_eq!(all, vec![region, crag_one, crag_two]);
    assert_eq!(db.climbs(Some(region), None), vec![climb]);
    assert_eq!(db.climbs(Some(region), Some(wall)), vec![] as Vec<u64>);
}

/// Clearing a parent is idempotent: clearing twice is as good as once,
/// and clearing an absent edge is no error.
#[test]
fn clear_parent_idempotent() {
    let mut db = Database::new();

    let a = db.create_area(names(&["The Gallery"]));
    let b = db.create_area(names(&["Old Baldy Mountain"]));

    db.clear_area_parent(a);
    assert_eq!(db.area_belongs_to_count(), 0);

    assert!(db.set_area_parent(a, b).is_ok());
    db.clear_area_parent(a);
    db.clear_area_parent(a);
    assert_eq!(db.area_belongs_to_count(), 0);
    assert_eq!(db.super_area(a), None);
}

/// Deleting a missing entity reports `NotFound`.
#[test]
fn remove_missing_not_found() {
    let mut db = Database::new();

    assert_eq!(db.remove_area(7), Err(HierarchyError::NotFound));
    assert_eq!(db.remove_formation(7), Err(HierarchyError::NotFound));
    assert_eq!(db.remove_climb(7), Err(HierarchyError::NotFound));
}
