use rampifier::{Direction, Primitive, Rampifier, RampifierConfig, Rotation};

fn empty_grid(w: usize, l: usize, h: usize) -> Vec<Option<u8>> {
    vec![None; w * l * h]
}

fn set(grid: &mut Vec<Option<u8>>, dims: (usize, usize, usize), c: (usize, usize, usize), m: u8) {
    grid[c.0 + c.1 * dims.0 + c.2 * dims.0 * dims.1] = Some(m);
}

/// A 4x1x5 staircase of material 3: column x has height x + 1.
fn staircase() -> ((usize, usize, usize), Vec<Option<u8>>) {
    let dims = (4, 1, 5);
    let mut grid = empty_grid(4, 1, 5);
    for x in 0..4 {
        for z in 0..(x + 1) {
            set(&mut grid, dims, (x, 0, z), 3);
        }
    }
    (dims, grid)
}

#[test]
fn staircase_floor_pass_ramps() {
    let (dims, grid) = staircase();
    let mut r = Rampifier::new(dims, grid, RampifierConfig::default());
    let ramps = r.generate_ramps(true);
    assert_eq!(ramps.len(), 3);
    assert_eq!(
        ramps[0],
        Primitive {
            asset_name_index: 1,
            position: (10, 5, 2),
            size: (10, 5, 2),
            direction: Direction::ZPositive,
            rotation: Rotation::Deg180,
            color_index: 3,
        }
    );
    assert_eq!(
        ramps[1],
        Primitive {
            asset_name_index: 1,
            position: (20, 5, 6),
            size: (10, 5, 2),
            direction: Direction::ZPositive,
            rotation: Rotation::Deg180,
            color_index: 3,
        }
    );
    assert_eq!(
        ramps[2],
        Primitive {
            asset_name_index: 1,
            position: (30, 5, 12),
            size: (10, 5, 4),
            direction: Direction::ZPositive,
            rotation: Rotation::Deg180,
            color_index: 3,
        }
    );
}

#[test]
fn staircase_ceiling_pass_mirrors_rotation() {
    let (dims, grid) = staircase();
    let mut r = Rampifier::new(dims, grid, RampifierConfig::default());
    let floor = r.generate_ramps(true);
    assert_eq!(floor.len(), 3);
    let ceil = r.generate_ramps(false);
    assert_eq!(ceil.len(), 1);
    // The ceiling ramp anchors with its original 0-degree rotation, then
    // stores the mirrored 180-degree rotation and hangs downward.
    assert_eq!(
        ceil[0],
        Primitive {
            asset_name_index: 1,
            position: (30, 5, 2),
            size: (10, 5, 2),
            direction: Direction::ZNegative,
            rotation: Rotation::Deg180,
            color_index: 3,
        }
    );
}

#[test]
fn staircase_full_pipeline_covers_everything() {
    let (dims, grid) = staircase();
    let mut r = Rampifier::new(dims, grid, RampifierConfig::default());
    let prims = r.generate_all();
    // Three floor ramps, one ceiling ramp, one leftover box.
    assert_eq!(prims.len(), 5);
    assert_eq!(
        prims[4],
        Primitive {
            asset_name_index: 0,
            position: (35, 5, 6),
            size: (5, 5, 2),
            direction: Direction::ZPositive,
            rotation: Rotation::Deg0,
            color_index: 3,
        }
    );
    // Every originally occupied cell was consumed by some primitive.
    let grid = r.move_grid();
    assert!(grid.iter().all(|c| c.is_none()));
}

#[test]
fn wedge_substitution_shrinks_run() {
    let (dims, grid) = staircase();
    let config = RampifierConfig::new(2, 4, 12, 2, 1, 1, 2, true, 0, 1, 2, (5, 5, 2));
    let mut r = Rampifier::new(dims, grid, config);
    let floor = r.generate_ramps(true);
    assert_eq!(floor.len(), 3);
    // The third fit rises exactly two plates, so with wedges enabled its
    // run shrinks by one and the wedge asset is selected.
    assert_eq!(
        floor[2],
        Primitive {
            asset_name_index: 2,
            position: (25, 5, 12),
            size: (5, 5, 4),
            direction: Direction::ZPositive,
            rotation: Rotation::Deg180,
            color_index: 3,
        }
    );
    let ceil = r.generate_ramps(false);
    assert_eq!(ceil.len(), 1);
    r.remove_occupied_voxels();
    let boxes = r.fill_boxes();
    assert_eq!(boxes.len(), 1);
    assert_eq!(boxes[0].size, (5, 5, 6));
    assert_eq!(boxes[0].position, (35, 5, 10));
}

#[test]
fn degenerate_run_limit_places_no_ramps() {
    let (dims, grid) = staircase();
    let config = RampifierConfig::new(2, 0, 12, 2, 1, 1, 2, false, 0, 1, 2, (5, 5, 2));
    let mut r = Rampifier::new(dims, grid, config);
    let floor = r.generate_ramps(true);
    let ceil = r.generate_ramps(false);
    assert_eq!(floor.len(), 0);
    assert_eq!(ceil.len(), 0);
}

#[test]
fn doubling_unit_size_doubles_output_components() {
    let (dims, grid) = staircase();
    let mut r1 = Rampifier::new(dims, grid.clone(), RampifierConfig::default());
    let p1 = r1.generate_all();
    let config2 = RampifierConfig::new(2, 4, 12, 2, 1, 1, 2, false, 0, 1, 2, (10, 10, 4));
    let mut r2 = Rampifier::new(dims, grid, config2);
    let p2 = r2.generate_all();
    assert_eq!(p1.len(), p2.len());
    for (a, b) in p1.iter().zip(p2.iter()) {
        assert_eq!(a.rotation, b.rotation);
        assert_eq!(a.direction, b.direction);
        assert_eq!(a.asset_name_index, b.asset_name_index);
        assert_eq!(a.color_index, b.color_index);
        assert_eq!(b.size.0, 2 * a.size.0);
        assert_eq!(b.size.1, 2 * a.size.1);
        assert_eq!(b.size.2, 2 * a.size.2);
        assert_eq!(b.position.0, 2 * a.position.0);
        assert_eq!(b.position.1, 2 * a.position.1);
        assert_eq!(b.position.2, 2 * a.position.2);
    }
    // The ceiling ramp anchors with the 0-degree formula, whose one-cell
    // correction is stated over the configured unit and so doubles too.
    assert_eq!(p1[3].direction, Direction::ZNegative);
    assert_eq!(p1[3].position, (30, 5, 2));
    assert_eq!(p2[3].position, (60, 10, 4));
}

#[test]
fn majority_tie_resolves_to_lowest_material_id() {
    // The first ramp's two-cell footprint holds materials 5 and 2 with one
    // cell each; the tie goes to the lower id.
    let dims = (4, 1, 5);
    let mut grid = empty_grid(4, 1, 5);
    for x in 0..4 {
        for z in 0..(x + 1) {
            set(&mut grid, dims, (x, 0, z), 3);
        }
    }
    set(&mut grid, dims, (0, 0, 0), 5);
    set(&mut grid, dims, (1, 0, 0), 2);
    let mut r = Rampifier::new(dims, grid, RampifierConfig::default());
    let ramps = r.generate_ramps(true);
    assert_eq!(ramps.len(), 3);
    assert_eq!(ramps[0].color_index, 2);
}

#[test]
fn majority_prefers_higher_tally_over_lower_id() {
    // The third ramp's footprint holds three occupied cells; give two of
    // them material 9 and one material 1: the majority is 9 even though 1
    // is lower.
    let dims = (4, 1, 5);
    let mut grid = empty_grid(4, 1, 5);
    for x in 0..4 {
        for z in 0..(x + 1) {
            set(&mut grid, dims, (x, 0, z), 9);
        }
    }
    set(&mut grid, dims, (2, 0, 2), 1);
    let mut r = Rampifier::new(dims, grid, RampifierConfig::default());
    let ramps = r.generate_ramps(true);
    assert_eq!(ramps.len(), 3);
    assert_eq!(ramps[2].color_index, 9);
}
