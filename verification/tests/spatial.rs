use evernight::spatial_hash::{CellRange, SpatialHashGrid};
use evernight::types::{CollisionMask, LayerBit};

fn cells(x0: i32, y0: i32, x1: i32, y1: i32) -> CellRange {
    CellRange { x0, y0, x1, y1 }
}

#[test]
fn grid_query_returns_inserted_index_in_covered_cell() {
    let mut grid = SpatialHashGrid::new();
    grid.insert(LayerBit::new(1).as_u32(), cells(0, 0, 0, 0), 7);
    let mut out = Vec::new();
    grid.query(CollisionMask::new(1), cells(0, 0, 0, 0), &mut out);
    assert_eq!(out, vec![7]);
}

#[test]
fn grid_query_skips_layers_outside_mask() {
    let mut grid = SpatialHashGrid::new();
    grid.insert(LayerBit::new(2).as_u32(), cells(0, 0, 0, 0), 1);
    let mut out = Vec::new();
    grid.query(CollisionMask::new(1), cells(0, 0, 0, 0), &mut out);
    assert!(out.is_empty());
}

#[test]
fn grid_query_repeats_index_spanning_cells() {
    let mut grid = SpatialHashGrid::new();
    grid.insert(1, cells(-1, -1, 0, 0), 3);
    let mut out = vec![99];
    grid.query(CollisionMask(1), cells(-1, -1, 0, 0), &mut out);
    assert_eq!(out, vec![99, 3, 3, 3, 3]);
}

#[test]
fn grid_query_orders_by_layer_then_row_then_column() {
    let mut grid = SpatialHashGrid::new();
    grid.insert(2, cells(1, 0, 1, 0), 10);
    grid.insert(1, cells(0, 1, 0, 1), 20);
    grid.insert(1, cells(1, 0, 1, 0), 30);
    grid.insert(1, cells(0, 0, 0, 0), 40);
    grid.insert(1, cells(0, 0, 0, 0), 41);
    let mut out = Vec::new();
    grid.query(CollisionMask(0b11), cells(0, 0, 1, 1), &mut out);
    assert_eq!(out, vec![40, 41, 30, 20, 10]);
}

#[test]
fn grid_clear_empties_every_cell() {
    let mut grid = SpatialHashGrid::new();
    grid.insert(1, cells(0, 0, 2, 2), 5);
    grid.clear();
    let mut out = Vec::new();
    grid.query(CollisionMask(1), cells(0, 0, 2, 2), &mut out);
    assert!(out.is_empty());
}

#[test]
fn grid_handles_extreme_cells() {
    let mut grid = SpatialHashGrid::new();
    grid.insert(1u32 << 31, cells(i32::MAX, i32::MIN, i32::MAX, i32::MIN), 4);
    grid.insert(1u32 << 31, cells(i32::MIN, i32::MAX, i32::MIN, i32::MAX), 6);
    let mut out = Vec::new();
    grid.query(CollisionMask::new(31), cells(i32::MAX, i32::MIN, i32::MAX, i32::MIN), &mut out);
    assert_eq!(out, vec![4]);
    let mut empty_range = Vec::new();
    grid.query(CollisionMask::new(31), cells(1, 1, 0, 0), &mut empty_range);
    assert!(empty_range.is_empty());
}
