use wave_function_collapse::catalog::{BesideImpossible, ConfigMap, ModelConfigOptions, WaveError};
use wave_function_collapse::tiles::{is_allowed, PositionSet, TileSet};

fn sorted(set: &TileSet) -> Vec<u32> {
    let mut listed = set.to_vec();
    listed.sort();
    listed
}

fn options(top: &[u32], right: &[u32], bottom: &[u32], left: &[u32], asset: &str) -> ModelConfigOptions {
    ModelConfigOptions::new(
        BesideImpossible {
            top: TileSet::from_vec(&top.to_vec()),
            right: TileSet::from_vec(&right.to_vec()),
            bottom: TileSet::from_vec(&bottom.to_vec()),
            left: TileSet::from_vec(&left.to_vec()),
        },
        asset.to_string(),
    )
}

#[test]
fn new_tile_set_is_empty() {
    let set = TileSet::new();
    assert_eq!(set.len(), 0);
    assert!(set.is_empty());
    assert!(!set.contains(0));
    assert_eq!(set.first(), None);
    assert_eq!(set.choose_random(), None);
    assert_eq!(set.to_vec(), Vec::<u32>::new());
}

#[test]
fn tile_set_insert_reports_new_codes() {
    let mut set = TileSet::new();
    assert!(set.insert(7));
    assert!(!set.insert(7));
    assert!(set.insert(9));
    assert_eq!(set.len(), 2);
    assert!(!set.is_empty());
    assert!(set.contains(7));
    assert!(set.contains(9));
    assert!(!set.contains(8));
}

#[test]
fn tile_set_from_vec_drops_repeats() {
    let set = TileSet::from_vec(&vec![3, 1, 3, 2, 1]);
    assert_eq!(set.len(), 3);
    assert_eq!(sorted(&set), vec![1, 2, 3]);
}

#[test]
fn tile_set_clone_is_independent() {
    let mut set = TileSet::from_vec(&vec![1, 2]);
    let copy = set.clone();
    set.insert(3);
    assert_eq!(sorted(&copy), vec![1, 2]);
    assert_eq!(sorted(&set), vec![1, 2, 3]);
}

#[test]
fn tile_set_remove_all_is_difference() {
    let mut set = TileSet::from_vec(&vec![1, 2, 3, 4]);
    set.remove_all(&TileSet::from_vec(&vec![2, 4, 9]));
    assert_eq!(sorted(&set), vec![1, 3]);
    set.remove_all(&TileSet::new());
    assert_eq!(sorted(&set), vec![1, 3]);
    set.remove_all(&TileSet::from_vec(&vec![1, 3]));
    assert!(set.is_empty());
}

#[test]
fn tile_set_intersection_keeps_common_codes() {
    let a = TileSet::from_vec(&vec![3, 4]);
    let b = TileSet::from_vec(&vec![4, 5]);
    assert_eq!(sorted(&a.intersection(&b)), vec![4]);
    assert_eq!(sorted(&a.intersection(&a)), vec![3, 4]);
    assert!(a.intersection(&TileSet::new()).is_empty());
}

#[test]
fn tile_set_first_and_choose_give_members() {
    let set = TileSet::from_vec(&vec![11, 12, 13]);
    let first = set.first().unwrap();
    assert!(set.contains(first));
    for _ in 0..50 {
        let picked = set.choose_random().unwrap();
        assert!(set.contains(picked));
    }
    let single = TileSet::from_vec(&vec![42]);
    assert_eq!(single.first(), Some(42));
    assert_eq!(single.choose_random(), Some(42));
}

#[test]
fn is_allowed_rejects_forbidden_codes() {
    let forbidden = TileSet::from_vec(&vec![2, 3]);
    assert!(is_allowed(&forbidden, 1));
    assert!(!is_allowed(&forbidden, 2));
    assert!(!is_allowed(&forbidden, 3));
}

#[test]
fn position_set_tracks_cells() {
    let mut set = PositionSet::new();
    assert_eq!(set.len(), 0);
    assert_eq!(set.choose_random(), None);
    assert!(set.insert((0, 1)));
    assert!(!set.insert((0, 1)));
    assert!(set.insert((1, 0)));
    assert_eq!(set.len(), 2);
    assert!(set.contains((0, 1)));
    assert!(!set.contains((1, 1)));
    for _ in 0..20 {
        let picked = set.choose_random().unwrap();
        assert!(set.contains(picked));
    }
    assert!(set.remove((0, 1)));
    assert!(!set.remove((0, 1)));
    assert_eq!(set.len(), 1);
    assert_eq!(set.choose_random(), Some((1, 0)));
}

#[test]
fn catalog_lookup_finds_entries() {
    let mut catalog = ConfigMap::new();
    assert!(!catalog.contains(1));
    catalog.insert(1, options(&[2], &[], &[], &[3, 4], "one.png"));
    catalog.insert(2, options(&[], &[], &[], &[], "two.png"));
    assert!(catalog.contains(1));
    assert!(catalog.get(3).is_none());
    let found = catalog.lookup(1).unwrap();
    assert_eq!(found.asset_model, "one.png");
    assert_eq!(sorted(&found.beside_impossible.top), vec![2]);
    assert_eq!(sorted(&found.beside_impossible.left), vec![3, 4]);
    assert!(found.beside_impossible.right.is_empty());
    assert_eq!(catalog.get(2).unwrap().asset_model, "two.png");
}

#[test]
fn catalog_lookup_reports_unknown_code() {
    let mut catalog = ConfigMap::new();
    catalog.insert(1, options(&[], &[], &[], &[], "one.png"));
    assert_eq!(catalog.lookup(7).err(), Some(WaveError::UnknownTileCode(7)));
}

#[test]
fn catalog_insert_replaces_entry() {
    let mut catalog = ConfigMap::new();
    catalog.insert(1, options(&[], &[], &[], &[], "old.png"));
    catalog.insert(1, options(&[5], &[], &[], &[], "new.png"));
    assert_eq!(catalog.lookup(1).unwrap().asset_model, "new.png");
    assert_eq!(sorted(&catalog.all_codes()), vec![1]);
}

#[test]
fn catalog_all_codes_is_the_domain() {
    let mut catalog = ConfigMap::new();
    assert!(catalog.all_codes().is_empty());
    catalog.insert(9, options(&[], &[], &[], &[], "a"));
    catalog.insert(10, options(&[], &[], &[], &[], "b"));
    catalog.insert(13, options(&[], &[], &[], &[], "c"));
    assert_eq!(sorted(&catalog.all_codes()), vec![9, 10, 13]);
}

#[test]
fn constraint_clone_keeps_all_sides() {
    let entry = options(&[1], &[2], &[3], &[4], "x");
    let copy = entry.beside_impossible.clone();
    assert_eq!(sorted(&copy.top), vec![1]);
    assert_eq!(sorted(&copy.right), vec![2]);
    assert_eq!(sorted(&copy.bottom), vec![3]);
    assert_eq!(sorted(&copy.left), vec![4]);
}

#[test]
fn options_clone_keeps_constraint_and_asset() {
    let entry = options(&[1, 2], &[], &[3], &[], "tiles/a.png");
    let copy = entry.clone();
    assert_eq!(copy.asset_model, "tiles/a.png");
    assert_eq!(sorted(&copy.beside_impossible.top), vec![1, 2]);
    assert!(copy.beside_impossible.right.is_empty());
    assert_eq!(sorted(&copy.beside_impossible.bottom), vec![3]);
    assert!(copy.beside_impossible.left.is_empty());
}
