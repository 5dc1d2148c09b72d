use wave_function_collapse::catalog::{
    BesideImpossible, ConfigMap, ModelConfigOptions, WaveConfig, WaveError,
};
use wave_function_collapse::engine::{
    collapse_all, get_init_resource, propagate, update_grid_rendering, wave_function_collapse,
};
use wave_function_collapse::grid::{GridItem, GridPosition, WaveGrid};
use wave_function_collapse::tiles::TileSet;

fn set(codes: &[u32]) -> TileSet {
    TileSet::from_vec(&codes.to_vec())
}

fn sorted(set: &TileSet) -> Vec<u32> {
    let mut listed = set.to_vec();
    listed.sort();
    listed
}

fn options(top: &[u32], right: &[u32], bottom: &[u32], left: &[u32], asset: &str) -> ModelConfigOptions {
    ModelConfigOptions::new(
        BesideImpossible { top: set(top), right: set(right), bottom: set(bottom), left: set(left) },
        asset.to_string(),
    )
}

fn free_catalog(codes: &[u32]) -> ConfigMap {
    let mut catalog = ConfigMap::new();
    for code in codes {
        catalog.insert(*code, options(&[], &[], &[], &[], &format!("tile_{}.png", code)));
    }
    catalog
}

/// Tiles 1 and 2 that only accept themselves as neighbours, in every
/// direction.
fn uniform_catalog() -> ConfigMap {
    let mut catalog = ConfigMap::new();
    catalog.insert(1, options(&[2], &[2], &[2], &[2], "one.png"));
    catalog.insert(2, options(&[1], &[1], &[1], &[1], "two.png"));
    catalog
}

fn values(grid: &WaveGrid, width: u32, height: u32) -> Vec<Option<u32>> {
    let mut listed = Vec::new();
    for y in 0..height {
        for x in 0..width {
            listed.push(grid.grid_value.get_item(x, y).get_value());
        }
    }
    listed
}

fn candidate_counts(grid: &WaveGrid, width: u32, height: u32) -> Vec<usize> {
    let mut listed = Vec::new();
    for y in 0..height {
        for x in 0..width {
            listed.push(grid.grid_value.get_item(x, y).possible_value.len());
        }
    }
    listed
}

#[test]
fn mod_it_works() {
    let config = free_catalog(&[9, 10, 13, 14]);
    let (wave_config, _) = get_init_resource(config, 50, 50);
    let a = GridItem::new(GridPosition::new(1, 1), set(&[9, 10, 13, 14]));
    let forbidden = a.get_beside_impossible_value(&wave_config.0);
    println!("{:?}", forbidden);
    assert!(forbidden.top.is_empty());
    assert!(forbidden.right.is_empty());
    assert!(forbidden.bottom.is_empty());
    assert!(forbidden.left.is_empty());
}

#[test]
fn test_it_works() {
    let (wave_config, mut wave_grid) = get_init_resource(uniform_catalog(), 6, 6);
    let mut rendered = 0;
    while !wave_grid.stack.0.is_empty() {
        wave_function_collapse(&mut wave_grid, &wave_config).unwrap();
        rendered += update_grid_rendering(&wave_config, &mut wave_grid).len();
    }
    assert_eq!(rendered, 36);
    assert_eq!(wave_grid.not_collapsed_set.len(), 0);
}

#[test]
fn single_tile_fills_the_grid() {
    let mut catalog = ConfigMap::new();
    catalog.insert(5, options(&[], &[], &[], &[], "five.png"));
    let config = WaveConfig(catalog);
    let mut grid = WaveGrid::new(2, 2, config.0.all_codes());
    grid.update_grid_item_value(GridPosition::new(0, 0), 5);
    assert_eq!(propagate(&mut grid, &config.0), Ok(()));
    assert_eq!(values(&grid, 2, 2), vec![Some(5), Some(5), Some(5), Some(5)]);
    assert!(grid.stack.0.is_empty());
    assert_eq!(grid.not_collapsed_set.len(), 0);
    let mut bundles = update_grid_rendering(&config, &mut grid);
    assert_eq!(bundles.len(), 4);
    assert_eq!(
        bundles,
        vec![
            (GridPosition::new(0, 0), "five.png".to_string()),
            (GridPosition::new(1, 0), "five.png".to_string()),
            (GridPosition::new(0, 1), "five.png".to_string()),
            (GridPosition::new(1, 1), "five.png".to_string()),
        ]
    );
    for _ in 0..3 {
        assert_eq!(wave_function_collapse(&mut grid, &config), Ok(()));
        bundles.extend(update_grid_rendering(&config, &mut grid));
    }
    assert_eq!(bundles.len(), 4);
}

#[test]
fn single_tile_is_rendered_once_over_ticks() {
    let mut catalog = ConfigMap::new();
    catalog.insert(5, options(&[], &[], &[], &[], "five.png"));
    let config = WaveConfig(catalog);
    let mut grid = WaveGrid::new(2, 2, config.0.all_codes());
    grid.update_grid_item_value(GridPosition::new(0, 0), 5);
    let mut seen: Vec<GridPosition> = Vec::new();
    for _ in 0..6 {
        assert_eq!(wave_function_collapse(&mut grid, &config), Ok(()));
        for (position, asset) in update_grid_rendering(&config, &mut grid) {
            assert_eq!(asset, "five.png");
            assert!(!seen.contains(&position));
            seen.push(position);
        }
    }
    assert_eq!(seen.len(), 4);
    assert_eq!(values(&grid, 2, 2), vec![Some(5), Some(5), Some(5), Some(5)]);
}

#[test]
fn right_constraint_collapses_the_neighbour() {
    let mut catalog = ConfigMap::new();
    catalog.insert(1, options(&[], &[2], &[], &[], "one.png"));
    catalog.insert(2, options(&[], &[], &[], &[], "two.png"));
    let mut grid = WaveGrid::new(2, 1, catalog.all_codes());
    grid.update_grid_item_value(GridPosition::new(0, 0), 1);
    assert_eq!(propagate(&mut grid, &catalog), Ok(()));
    let right = grid.grid_value.get_item(1, 0);
    assert!(!right.possible_value.contains(2));
    assert_eq!(sorted(&right.possible_value), vec![1]);
    assert_eq!(right.get_value(), Some(1));
    assert_eq!(grid.grid_value.get_item(0, 0).get_value(), Some(1));
    assert_eq!(grid.not_collapsed_set.len(), 0);
    assert!(grid.stack.0.is_empty());
}

#[test]
fn right_constraint_only_removes_the_forbidden_code() {
    let mut catalog = ConfigMap::new();
    catalog.insert(1, options(&[], &[2], &[], &[], "one.png"));
    catalog.insert(2, options(&[], &[], &[], &[], "two.png"));
    catalog.insert(3, options(&[], &[], &[], &[], "three.png"));
    let mut grid = WaveGrid::new(2, 1, catalog.all_codes());
    grid.update_grid_item_value(GridPosition::new(0, 0), 1);
    assert_eq!(propagate(&mut grid, &catalog), Ok(()));
    let right = grid.grid_value.get_item(1, 0);
    assert_eq!(sorted(&right.possible_value), vec![1, 3]);
    assert_eq!(right.get_value(), None);
    assert_eq!(grid.not_collapsed_set.len(), 1);
}

#[test]
fn constraint_is_not_checked_backwards() {
    let mut catalog = ConfigMap::new();
    catalog.insert(1, options(&[], &[], &[], &[], "one.png"));
    catalog.insert(2, options(&[], &[], &[], &[1], "two.png"));
    catalog.insert(3, options(&[], &[], &[], &[], "three.png"));
    let mut grid = WaveGrid::new(2, 1, catalog.all_codes());
    grid.update_grid_item_value(GridPosition::new(0, 0), 1);
    assert_eq!(propagate(&mut grid, &catalog), Ok(()));
    assert_eq!(sorted(&grid.grid_value.get_item(1, 0).possible_value), vec![1, 2, 3]);
}

#[test]
fn directions_reach_the_matching_neighbours() {
    let mut catalog = ConfigMap::new();
    catalog.insert(1, options(&[2], &[3], &[4], &[5], "one.png"));
    for code in 2..=6u32 {
        catalog.insert(code, options(&[], &[], &[], &[], "other.png"));
    }
    let mut grid = WaveGrid::new(3, 3, catalog.all_codes());
    grid.update_grid_item_value(GridPosition::new(1, 1), 1);
    assert_eq!(propagate(&mut grid, &catalog), Ok(()));
    assert_eq!(sorted(&grid.grid_value.get_item(1, 2).possible_value), vec![1, 3, 4, 5, 6]);
    assert_eq!(sorted(&grid.grid_value.get_item(2, 1).possible_value), vec![1, 2, 4, 5, 6]);
    assert_eq!(sorted(&grid.grid_value.get_item(1, 0).possible_value), vec![1, 2, 3, 5, 6]);
    assert_eq!(sorted(&grid.grid_value.get_item(0, 1).possible_value), vec![1, 2, 3, 4, 6]);
    assert_eq!(sorted(&grid.grid_value.get_item(0, 0).possible_value), vec![1, 2, 3, 4, 5, 6]);
    assert_eq!(sorted(&grid.grid_value.get_item(2, 2).possible_value), vec![1, 2, 3, 4, 5, 6]);
    assert_eq!(grid.not_collapsed_set.len(), 8);
}

#[test]
fn opposite_neighbours_give_a_contradiction() {
    let mut catalog = ConfigMap::new();
    catalog.insert(1, options(&[], &[1], &[], &[], "one.png"));
    catalog.insert(2, options(&[], &[], &[], &[], "two.png"));
    catalog.insert(3, options(&[], &[], &[], &[2, 3], "three.png"));
    let mut grid = WaveGrid::new(3, 1, catalog.all_codes());
    grid.update_grid_item_value(GridPosition::new(0, 0), 1);
    assert_eq!(propagate(&mut grid, &catalog), Ok(()));
    assert_eq!(sorted(&grid.grid_value.get_item(1, 0).possible_value), vec![2, 3]);
    grid.update_grid_item_value(GridPosition::new(2, 0), 3);
    assert_eq!(propagate(&mut grid, &catalog), Err(WaveError::Contradiction { x: 1, y: 0 }));
    let middle = grid.grid_value.get_item(1, 0);
    assert_eq!(middle.get_value(), None);
    assert_eq!(sorted(&middle.possible_value), vec![2, 3]);
    assert!(grid.not_collapsed_set.contains((1, 0)));
}

#[test]
fn step_reports_a_contradiction() {
    let mut catalog = ConfigMap::new();
    catalog.insert(1, options(&[], &[1, 2], &[], &[], "one.png"));
    catalog.insert(2, options(&[], &[], &[], &[], "two.png"));
    let config = WaveConfig(catalog);
    let mut grid = WaveGrid::new(2, 1, config.0.all_codes());
    grid.update_grid_item_value(GridPosition::new(0, 0), 1);
    assert_eq!(
        wave_function_collapse(&mut grid, &config),
        Err(WaveError::Contradiction { x: 1, y: 0 })
    );
    assert_eq!(grid.grid_value.get_item(1, 0).get_value(), None);
    assert_eq!(sorted(&grid.grid_value.get_item(1, 0).possible_value), vec![1, 2]);
}

#[test]
fn collapse_all_stops_at_a_contradiction() {
    let mut catalog = ConfigMap::new();
    catalog.insert(1, options(&[1, 2], &[1, 2], &[1, 2], &[1, 2], "one.png"));
    catalog.insert(2, options(&[1, 2], &[1, 2], &[1, 2], &[1, 2], "two.png"));
    let config = WaveConfig(catalog);
    let mut grid = WaveGrid::new(2, 1, config.0.all_codes());
    let done = collapse_all(&mut grid, &config);
    assert!(
        done == Err(WaveError::Contradiction { x: 0, y: 0 })
            || done == Err(WaveError::Contradiction { x: 1, y: 0 })
    );
}

#[test]
fn propagate_with_empty_worklist_changes_nothing() {
    let catalog = uniform_catalog();
    let mut grid = WaveGrid::new(2, 2, catalog.all_codes());
    assert_eq!(propagate(&mut grid, &catalog), Ok(()));
    assert_eq!(values(&grid, 2, 2), vec![None, None, None, None]);
    assert_eq!(candidate_counts(&grid, 2, 2), vec![2, 2, 2, 2]);
    assert_eq!(grid.not_collapsed_set.len(), 4);
}

#[test]
fn propagation_cascades_through_the_grid() {
    let catalog = uniform_catalog();
    let mut grid = WaveGrid::new(4, 3, catalog.all_codes());
    grid.update_grid_item_value(GridPosition::new(2, 1), 2);
    assert_eq!(propagate(&mut grid, &catalog), Ok(()));
    assert_eq!(values(&grid, 4, 3), vec![Some(2); 12]);
    assert_eq!(grid.not_collapsed_set.len(), 0);
}

#[test]
fn step_collapses_one_cell_of_a_free_grid() {
    let config = WaveConfig(free_catalog(&[1, 2, 3]));
    let mut grid = WaveGrid::new(3, 3, config.0.all_codes());
    assert_eq!(wave_function_collapse(&mut grid, &config), Ok(()));
    assert_eq!(grid.not_collapsed_set.len(), 8);
    assert_eq!(grid.stack.0.len(), 1);
    let picked = grid.stack.0[0];
    let value = grid.grid_value.get_item(picked.x, picked.y).get_value().unwrap();
    assert!(config.0.contains(value));
    assert_eq!(values(&grid, 3, 3).iter().filter(|v| v.is_some()).count(), 1);
}

#[test]
fn step_on_a_finished_grid_does_nothing() {
    let config = WaveConfig(uniform_catalog());
    let mut grid = WaveGrid::new(2, 2, config.0.all_codes());
    grid.update_grid_item_value(GridPosition::new(0, 0), 1);
    assert_eq!(wave_function_collapse(&mut grid, &config), Ok(()));
    assert_eq!(values(&grid, 2, 2), vec![Some(1); 4]);
    assert_eq!(wave_function_collapse(&mut grid, &config), Ok(()));
    assert_eq!(values(&grid, 2, 2), vec![Some(1); 4]);
    assert!(grid.stack.0.is_empty());
    assert_eq!(grid.get_rand_not_collapse(), None);
}

#[test]
fn steps_run_out_on_a_free_grid() {
    let config = WaveConfig(free_catalog(&[1, 2, 3, 4]));
    let mut grid = WaveGrid::new(4, 4, config.0.all_codes());
    let mut left = grid.not_collapsed_set.len();
    let mut steps = 0;
    while left > 0 {
        assert_eq!(wave_function_collapse(&mut grid, &config), Ok(()));
        let now = grid.not_collapsed_set.len();
        assert!(now < left);
        left = now;
        steps += 1;
    }
    assert_eq!(steps, 16);
    assert!(values(&grid, 4, 4).iter().all(|v| v.is_some()));
}

#[test]
fn collapse_all_gives_values_of_the_catalog() {
    let config = WaveConfig(free_catalog(&[3, 8, 21]));
    let mut grid = WaveGrid::new(5, 4, config.0.all_codes());
    assert_eq!(collapse_all(&mut grid, &config), Ok(()));
    assert_eq!(grid.not_collapsed_set.len(), 0);
    for value in values(&grid, 5, 4) {
        assert!(config.0.contains(value.unwrap()));
    }
}

#[test]
fn candidate_counts_never_grow() {
    let mut catalog = ConfigMap::new();
    catalog.insert(1, options(&[3], &[3], &[3], &[3], "one.png"));
    catalog.insert(2, options(&[], &[], &[], &[], "two.png"));
    catalog.insert(3, options(&[1], &[1], &[1], &[1], "three.png"));
    let config = WaveConfig(catalog);
    let mut grid = WaveGrid::new(4, 4, config.0.all_codes());
    let mut counts = candidate_counts(&grid, 4, 4);
    let mut frozen = values(&grid, 4, 4);
    while grid.not_collapsed_set.len() > 0 {
        assert_eq!(wave_function_collapse(&mut grid, &config), Ok(()));
        let now = candidate_counts(&grid, 4, 4);
        let seen = values(&grid, 4, 4);
        for i in 0..16 {
            assert!(now[i] <= counts[i]);
            assert!(now[i] >= 1);
            if frozen[i].is_some() {
                assert_eq!(seen[i], frozen[i]);
                assert_eq!(now[i], counts[i]);
            }
        }
        counts = now;
        frozen = seen;
    }
}

#[test]
fn second_render_is_empty() {
    let config = WaveConfig(free_catalog(&[1, 2]));
    let mut grid = WaveGrid::new(3, 2, config.0.all_codes());
    assert!(update_grid_rendering(&config, &mut grid).is_empty());
    grid.update_grid_item_value(GridPosition::new(2, 1), 2);
    grid.update_grid_item_value(GridPosition::new(0, 0), 1);
    let first = update_grid_rendering(&config, &mut grid);
    assert_eq!(
        first,
        vec![
            (GridPosition::new(0, 0), "tile_1.png".to_string()),
            (GridPosition::new(2, 1), "tile_2.png".to_string()),
        ]
    );
    assert!(grid.grid_value.get_item(0, 0).rendered);
    assert!(grid.grid_value.get_item(2, 1).rendered);
    assert!(!grid.grid_value.get_item(1, 0).rendered);
    assert!(update_grid_rendering(&config, &mut grid).is_empty());
    grid.update_grid_item_value(GridPosition::new(1, 0), 2);
    assert_eq!(
        update_grid_rendering(&config, &mut grid),
        vec![(GridPosition::new(1, 0), "tile_2.png".to_string())]
    );
    assert!(update_grid_rendering(&config, &mut grid).is_empty());
}

#[test]
fn init_collapses_one_cell() {
    for _ in 0..10 {
        let (config, grid) = get_init_resource(free_catalog(&[4, 6]), 3, 2);
        assert_eq!(grid.grid_value.0.len(), 2);
        assert_eq!(grid.grid_value.0[0].len(), 3);
        assert_eq!(grid.not_collapsed_set.len(), 5);
        assert_eq!(grid.stack.0.len(), 1);
        let seed = grid.stack.0[0];
        assert!(seed.x < 3 && seed.y < 2);
        let value = grid.grid_value.get_item(seed.x, seed.y).get_value().unwrap();
        assert!(config.0.contains(value));
        assert_eq!(candidate_counts(&grid, 3, 2), vec![2; 6]);
    }
}

#[test]
fn single_cell_grid_has_no_neighbours() {
    let config = WaveConfig(uniform_catalog());
    let mut grid = WaveGrid::new(1, 1, config.0.all_codes());
    assert_eq!(wave_function_collapse(&mut grid, &config), Ok(()));
    assert_eq!(grid.not_collapsed_set.len(), 0);
    let value = grid.grid_value.get_item(0, 0).get_value().unwrap();
    assert!(value == 1 || value == 2);
    assert_eq!(grid.stack.0, vec![GridPosition::new(0, 0)]);
    assert_eq!(wave_function_collapse(&mut grid, &config), Ok(()));
    assert!(grid.stack.0.is_empty());
    assert_eq!(grid.grid_value.get_item(0, 0).get_value(), Some(value));
    assert_eq!(candidate_counts(&grid, 1, 1), vec![2]);
}

#[test]
fn propagation_takes_the_last_pushed_cell_first() {
    let mut catalog = ConfigMap::new();
    catalog.insert(1, options(&[], &[2, 3], &[], &[], "one.png"));
    catalog.insert(2, options(&[], &[1, 2], &[], &[], "two.png"));
    catalog.insert(3, options(&[], &[], &[], &[], "three.png"));
    let mut grid = WaveGrid::new(2, 2, catalog.all_codes());
    grid.update_grid_item_value(GridPosition::new(0, 0), 2);
    grid.update_grid_item_value(GridPosition::new(0, 1), 1);
    assert_eq!(propagate(&mut grid, &catalog), Ok(()));
    assert_eq!(grid.grid_value.get_item(1, 1).get_value(), Some(1));
    assert_eq!(grid.grid_value.get_item(1, 0).get_value(), Some(3));
    assert_eq!(grid.not_collapsed_set.len(), 0);
}

#[test]
fn contradiction_stops_the_propagation_where_it_stands() {
    let mut catalog = ConfigMap::new();
    catalog.insert(1, options(&[2], &[1, 2], &[], &[], "one.png"));
    catalog.insert(2, options(&[], &[], &[], &[], "two.png"));
    let mut grid = WaveGrid::new(2, 2, catalog.all_codes());
    grid.update_grid_item_value(GridPosition::new(0, 0), 1);
    assert_eq!(propagate(&mut grid, &catalog), Err(WaveError::Contradiction { x: 1, y: 0 }));
    assert_eq!(grid.grid_value.get_item(0, 1).get_value(), Some(1));
    assert_eq!(sorted(&grid.grid_value.get_item(0, 1).possible_value), vec![1]);
    assert_eq!(grid.grid_value.get_item(1, 0).get_value(), None);
    assert_eq!(sorted(&grid.grid_value.get_item(1, 0).possible_value), vec![1, 2]);
    assert_eq!(grid.stack.0, vec![GridPosition::new(0, 1)]);
    assert_eq!(grid.not_collapsed_set.len(), 2);
}
