use rampifier::primitive::offset_pos;
use rampifier::{Rampifier, RampifierConfig, Rotation, VoxVector};

#[test]
fn default_config_values() {
    let c = RampifierConfig::default();
    assert_eq!(c.ramp_max_width, 2);
    assert_eq!(c.ramp_max_run, 4);
    assert_eq!(c.ramp_max_rise, 12);
    assert_eq!(c.wedge_max_rise, 2);
    assert_eq!(c.ramp_min_rise, 1);
    assert_eq!(c.ramp_rise_step, 1);
    assert_eq!(c.wedge_rise_step, 2);
    assert!(!c.use_wedge);
    assert_eq!(c.brick_index, 0);
    assert_eq!(c.ramp_index, 1);
    assert_eq!(c.wedge_index, 2);
    assert_eq!(c.brick_size, (5, 5, 2));
}

#[test]
fn new_config_keeps_every_field() {
    let c = RampifierConfig::new(1, 2, 3, 4, 5, 6, 7, true, 8, 9, 10, (11, 12, 13));
    assert_eq!(c.ramp_max_width, 1);
    assert_eq!(c.ramp_max_run, 2);
    assert_eq!(c.ramp_max_rise, 3);
    assert_eq!(c.wedge_max_rise, 4);
    assert_eq!(c.ramp_min_rise, 5);
    assert_eq!(c.ramp_rise_step, 6);
    assert_eq!(c.wedge_rise_step, 7);
    assert!(c.use_wedge);
    assert_eq!(c.brick_index, 8);
    assert_eq!(c.ramp_index, 9);
    assert_eq!(c.wedge_index, 10);
    assert_eq!(c.brick_size, (11, 12, 13));
}

#[test]
fn micro_config_uses_unit_bricks() {
    let c = RampifierConfig::micro(40, 41);
    assert_eq!(c.brick_index, 40);
    assert_eq!(c.ramp_index, 41);
    assert_eq!(c.wedge_index, 41);
    assert_eq!(c.brick_size, (1, 1, 1));
    assert!(!c.use_wedge);
    assert_eq!(c.ramp_max_width, 2);
    assert_eq!(c.ramp_max_run, 4);
    assert_eq!(c.ramp_max_rise, 12);
    assert_eq!(c.wedge_max_rise, 12);
    assert_eq!(c.ramp_min_rise, 1);
    assert_eq!(c.ramp_rise_step, 1);
    assert_eq!(c.wedge_rise_step, 1);
}

#[test]
fn x4cube_config_uses_twenty_unit_bricks() {
    let c = RampifierConfig::x4cube(50, 51);
    assert_eq!(c.brick_index, 50);
    assert_eq!(c.ramp_index, 51);
    assert_eq!(c.wedge_index, 51);
    assert_eq!(c.brick_size, (20, 20, 20));
    assert_eq!(c.ramp_max_rise, 4);
    assert_eq!(c.ramp_max_width, 2);
    assert_eq!(c.ramp_max_run, 4);
    assert_eq!(c.wedge_max_rise, 12);
    assert_eq!(c.ramp_min_rise, 1);
    assert_eq!(c.ramp_rise_step, 0);
    assert_eq!(c.wedge_rise_step, 1);
    assert!(!c.use_wedge);
}

#[test]
fn move_grid_returns_the_same_buffer() {
    let grid = vec![None, Some(1), None, Some(2), None, None];
    let r = Rampifier::new((3, 2, 1), grid.clone(), RampifierConfig::default());
    assert_eq!(r.move_grid(), grid);
}

#[test]
fn with_config_replaces_configuration() {
    let grid = vec![None; 8];
    let r = Rampifier::new((2, 2, 2), grid, RampifierConfig::default());
    let r = r.with_config(RampifierConfig::micro(5, 6));
    let mut r = r;
    let prims = r.generate_all();
    assert_eq!(prims.len(), 0);
}

#[test]
fn vox_vector_arithmetic() {
    let a = VoxVector(1, -2, 3);
    let b = VoxVector(4, 5, -6);
    let s = a.plus(b);
    assert_eq!((s.0, s.1, s.2), (5, 3, -3));
    let f = VoxVector::forward_vec(Rotation::Deg0);
    assert_eq!((f.0, f.1, f.2), (-1, 0, 0));
    let f = VoxVector::forward_vec(Rotation::Deg180);
    assert_eq!((f.0, f.1, f.2), (1, 0, 0));
    let f = VoxVector::forward_vec(Rotation::Deg90);
    assert_eq!((f.0, f.1, f.2), (0, -1, 0));
    let f = VoxVector::forward_vec(Rotation::Deg270);
    assert_eq!((f.0, f.1, f.2), (0, 1, 0));
    let u = VoxVector::up();
    assert_eq!((u.0, u.1, u.2), (0, 0, 1));
    let st = VoxVector(2, 3, 4).stepped(Rotation::Deg90, 2, -1);
    assert_eq!((st.0, st.1, st.2), (2, 1, 3));
}

#[test]
fn offset_moves_anchor_per_rotation() {
    let cfg = RampifierConfig::default();
    let size = (10, 5, 2);
    assert_eq!(offset_pos(&cfg, (0, 0, 0), size, Rotation::Deg0), (0, 5, 2));
    assert_eq!(offset_pos(&cfg, (0, 0, 0), size, Rotation::Deg90), (5, 0, 2));
    assert_eq!(offset_pos(&cfg, (0, 0, 0), size, Rotation::Deg180), (10, 5, 2));
    assert_eq!(offset_pos(&cfg, (0, 0, 0), size, Rotation::Deg270), (5, 10, 2));
    // The backward step of the 0/90 forms is one cell in the configured
    // unit, not a fixed count of world units.
    let micro = RampifierConfig::micro(0, 1);
    assert_eq!(offset_pos(&micro, (0, 0, 0), size, Rotation::Deg0), (-8, 5, 2));
    assert_eq!(offset_pos(&micro, (0, 0, 0), size, Rotation::Deg90), (5, -8, 2));
}

#[test]
fn bounds_checked_accessors_treat_outside_as_air() {
    let mut grid = vec![None; 8];
    grid[0] = Some(5);
    let r = Rampifier::new((2, 2, 2), grid, RampifierConfig::default());
    assert_eq!(r.get_point_safe(VoxVector(0, 0, 0)), Some(5));
    assert_eq!(r.get_point_safe(VoxVector(-1, 0, 0)), None);
    assert_eq!(r.get_point_safe(VoxVector(0, 0, 2)), None);
    assert!(r.vox_exists(VoxVector(0, 0, 0)));
    assert!(!r.vox_exists(VoxVector(1, 1, 1)));
    assert!(r.is_bounded(VoxVector(1, 1, 1)));
    assert!(!r.is_bounded(VoxVector(2, 0, 0)));
    assert!(!r.ramp_exists(VoxVector(0, 0, 0)));
}
