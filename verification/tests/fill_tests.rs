use rampifier::{Direction, Primitive, Rampifier, RampifierConfig, Rotation};

fn empty_grid(w: usize, l: usize, h: usize) -> Vec<Option<u8>> {
    vec![None; w * l * h]
}

fn set(grid: &mut Vec<Option<u8>>, dims: (usize, usize, usize), c: (usize, usize, usize), m: u8) {
    grid[c.0 + c.1 * dims.0 + c.2 * dims.0 * dims.1] = Some(m);
}

/// A configuration whose run limit is degenerate, so that no ramp ever fits
/// and only the box filler produces primitives.
fn no_ramp_config() -> RampifierConfig {
    RampifierConfig::new(2, 0, 12, 2, 1, 1, 2, false, 0, 1, 2, (5, 5, 2))
}

#[test]
fn empty_grid_produces_no_primitives() {
    let dims = (3, 3, 3);
    let grid = empty_grid(3, 3, 3);
    let mut r = Rampifier::new(dims, grid, RampifierConfig::default());
    let floor = r.generate_ramps(true);
    let ceil = r.generate_ramps(false);
    assert_eq!(floor.len(), 0);
    assert_eq!(ceil.len(), 0);
    r.remove_occupied_voxels();
    let boxes = r.fill_boxes();
    assert_eq!(boxes.len(), 0);
}

#[test]
fn empty_grid_full_pipeline_is_empty() {
    let dims = (4, 2, 5);
    let grid = empty_grid(4, 2, 5);
    let mut r = Rampifier::new(dims, grid, RampifierConfig::default());
    let prims = r.generate_all();
    assert_eq!(prims.len(), 0);
    let grid = r.move_grid();
    assert!(grid.iter().all(|c| c.is_none()));
}

#[test]
fn height_grows_before_width_before_length() {
    // A vertical column of three cells at the origin and a ground row along
    // x: the first box grows to full height (1, 1, 3) before any sideways
    // growth, leaving a (2, 1, 1) row box; width-first growth would have
    // produced a (3, 1, 1) box instead.
    let dims = (3, 1, 3);
    let mut grid = empty_grid(3, 1, 3);
    for z in 0..3 {
        set(&mut grid, dims, (0, 0, z), 7);
    }
    set(&mut grid, dims, (1, 0, 0), 7);
    set(&mut grid, dims, (2, 0, 0), 7);
    let mut r = Rampifier::new(dims, grid, no_ramp_config());
    let ramps = r.generate_ramps(true);
    assert_eq!(ramps.len(), 0);
    r.remove_occupied_voxels();
    let boxes = r.fill_boxes();
    assert_eq!(boxes.len(), 2);
    assert_eq!(
        boxes[0],
        Primitive {
            asset_name_index: 0,
            position: (5, 5, 6),
            size: (5, 5, 6),
            direction: Direction::ZPositive,
            rotation: Rotation::Deg0,
            color_index: 7,
        }
    );
    assert_eq!(
        boxes[1],
        Primitive {
            asset_name_index: 0,
            position: (20, 5, 2),
            size: (10, 5, 2),
            direction: Direction::ZPositive,
            rotation: Rotation::Deg0,
            color_index: 7,
        }
    );
    let tall: Vec<&Primitive> = boxes.iter().filter(|b| b.size == (5, 5, 6)).collect();
    assert_eq!(tall.len(), 1);
    let grid = r.move_grid();
    assert!(grid.iter().all(|c| c.is_none()));
}

#[test]
fn uniform_block_merges_into_one_box() {
    let dims = (2, 2, 3);
    let mut grid = empty_grid(2, 2, 3);
    for x in 0..2 {
        for y in 0..2 {
            for z in 0..3 {
                set(&mut grid, dims, (x, y, z), 4);
            }
        }
    }
    let mut r = Rampifier::new(dims, grid, no_ramp_config());
    let ramps = r.generate_ramps(true);
    assert_eq!(ramps.len(), 0);
    r.remove_occupied_voxels();
    let boxes = r.fill_boxes();
    assert_eq!(boxes.len(), 1);
    assert_eq!(boxes[0].size, (10, 10, 6));
    assert_eq!(boxes[0].position, (10, 10, 6));
    assert_eq!(boxes[0].color_index, 4);
}

#[test]
fn material_boundary_blocks_merging() {
    let dims = (2, 1, 1);
    let mut grid = empty_grid(2, 1, 1);
    set(&mut grid, dims, (0, 0, 0), 1);
    set(&mut grid, dims, (1, 0, 0), 2);
    let mut r = Rampifier::new(dims, grid, no_ramp_config());
    let boxes = r.fill_boxes();
    assert_eq!(boxes.len(), 2);
    assert_eq!(boxes[0].size, (5, 5, 2));
    assert_eq!(boxes[0].position, (5, 5, 2));
    assert_eq!(boxes[0].color_index, 1);
    assert_eq!(boxes[1].size, (5, 5, 2));
    assert_eq!(boxes[1].position, (15, 5, 2));
    assert_eq!(boxes[1].color_index, 2);
}

#[test]
fn isolated_voxel_yields_one_unit_box_and_no_ramp() {
    let dims = (3, 3, 3);
    let mut grid = empty_grid(3, 3, 3);
    set(&mut grid, dims, (0, 0, 0), 9);
    let mut r = Rampifier::new(dims, grid, RampifierConfig::default());
    let floor = r.generate_ramps(true);
    let ceil = r.generate_ramps(false);
    assert_eq!(floor.len(), 0);
    assert_eq!(ceil.len(), 0);
    r.remove_occupied_voxels();
    let boxes = r.fill_boxes();
    assert_eq!(boxes.len(), 1);
    assert_eq!(
        boxes[0],
        Primitive {
            asset_name_index: 0,
            position: (5, 5, 2),
            size: (5, 5, 2),
            direction: Direction::ZPositive,
            rotation: Rotation::Deg0,
            color_index: 9,
        }
    );
}

#[test]
fn isolated_voxel_full_pipeline() {
    let dims = (3, 3, 3);
    let mut grid = empty_grid(3, 3, 3);
    set(&mut grid, dims, (0, 0, 0), 9);
    let mut r = Rampifier::new(dims, grid, RampifierConfig::default());
    let prims = r.generate_all();
    assert_eq!(prims.len(), 1);
    assert_eq!(prims[0].size, (5, 5, 2));
    let grid = r.move_grid();
    assert!(grid.iter().all(|c| c.is_none()));
}

#[test]
fn box_growth_caps_at_sixty_four() {
    let dims = (70, 1, 1);
    let mut grid = empty_grid(70, 1, 1);
    for x in 0..70 {
        set(&mut grid, dims, (x, 0, 0), 3);
    }
    let mut r = Rampifier::new(dims, grid, no_ramp_config());
    let boxes = r.fill_boxes();
    assert_eq!(boxes.len(), 2);
    assert_eq!(boxes[0].size, (320, 5, 2));
    assert_eq!(boxes[1].size, (30, 5, 2));
    let grid = r.move_grid();
    assert!(grid.iter().all(|c| c.is_none()));
}

/// Decodes the grid-space footprint of a box primitive emitted under the
/// default 5x5x2 unit size.
fn box_cells(p: &Primitive) -> Vec<(usize, usize, usize)> {
    let w = (p.size.0 / 5) as usize;
    let l = (p.size.1 / 5) as usize;
    let h = (p.size.2 / 2) as usize;
    let x = ((p.position.0 - p.size.0 as i32) / 10) as usize;
    let y = ((p.position.1 - p.size.1 as i32) / 10) as usize;
    let z = ((p.position.2 - p.size.2 as i32) / 4) as usize;
    let mut cells = Vec::new();
    for i in 0..w {
        for j in 0..l {
            for k in 0..h {
                cells.push((x + i, y + j, z + k));
            }
        }
    }
    cells
}

#[test]
fn box_footprints_partition_occupied_cells() {
    // The emitted boxes' footprints are pairwise disjoint and cover the
    // originally occupied cells exactly once.
    let dims = (3, 1, 3);
    let mut grid = empty_grid(3, 1, 3);
    let mut occupied = Vec::new();
    for z in 0..3 {
        set(&mut grid, dims, (0, 0, z), 7);
        occupied.push((0usize, 0usize, z));
    }
    set(&mut grid, dims, (1, 0, 0), 7);
    set(&mut grid, dims, (2, 0, 0), 7);
    occupied.push((1, 0, 0));
    occupied.push((2, 0, 0));

    let mut r = Rampifier::new(dims, grid, no_ramp_config());
    let boxes = r.fill_boxes();

    let mut covered: Vec<(usize, usize, usize)> = Vec::new();
    for b in &boxes {
        for c in box_cells(b) {
            assert!(!covered.contains(&c), "cell covered twice");
            covered.push(c);
        }
    }
    for c in &occupied {
        assert!(covered.contains(c), "occupied cell left uncovered");
    }
    assert_eq!(covered.len(), occupied.len());
}

#[test]
fn micro_config_scales_by_unit_bricks() {
    let dims = (3, 3, 3);
    let mut grid = empty_grid(3, 3, 3);
    set(&mut grid, dims, (1, 1, 1), 6);
    let mut r = Rampifier::new(dims, grid, RampifierConfig::micro(0, 1));
    let prims = r.generate_all();
    assert_eq!(prims.len(), 1);
    assert_eq!(prims[0].size, (1, 1, 1));
    assert_eq!(prims[0].position, (3, 3, 3));
    assert_eq!(prims[0].color_index, 6);
}
