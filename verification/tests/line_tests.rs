//! Tests for pointer-to-canvas conversion and line rasterization.

use matter_sandbox::line::{get_canvas_line, MousePos};
use matter_sandbox::rat::Rat;

#[test]
fn diagonal_walk_hits_every_cell_once() {
    // Canvas 512x512: world (-256, -256) is canvas (0, 0) and world
    // (-251, -251) is canvas (5, 5). The walk yields exactly 6 points,
    // monotonically non-decreasing in both axes, with both endpoints.
    let prev = MousePos::new(Rat::from_int(-256), Rat::from_int(-256));
    let current = MousePos::new(Rat::from_int(-251), Rat::from_int(-251));
    let line = get_canvas_line(Some(prev), current, 512, 512).unwrap();
    assert_eq!(line.len(), 6);
    assert_eq!(line[0], (0, 0));
    assert_eq!(line[5], (5, 5));
    for i in 1..line.len() {
        assert!(line[i].0 >= line[i - 1].0);
        assert!(line[i].1 >= line[i - 1].1);
    }
    for (i, p) in line.iter().enumerate() {
        assert_eq!(*p, (i as i32, i as i32));
    }
}

#[test]
fn missing_previous_position_degenerates_to_one_point() {
    let current = MousePos::new(Rat::from_int(10), Rat::from_int(-20));
    let line = get_canvas_line(None, current, 512, 512).unwrap();
    assert_eq!(line, vec![(266, 236)]);
}

#[test]
fn canvas_pos_adds_half_the_canvas() {
    let pos = MousePos::new(Rat::new(-3, 2), Rat::new(5, 2));
    let (cx, cy) = pos.canvas_pos(512, 512).unwrap();
    assert_eq!(cx, Rat::new(509, 2)); // -3/2 + 256
    assert_eq!(cy, Rat::new(517, 2)); // 5/2 + 256
}

#[test]
fn canvas_coordinates_round_to_the_nearest_cell() {
    // World (0.5, -0.4) on a 512 canvas: canvas (256.5, 255.6), which
    // rounds to (257, 256) with ties away from zero.
    let current = MousePos::new(Rat::new(1, 2), Rat::new(-2, 5));
    let line = get_canvas_line(None, current, 512, 512).unwrap();
    assert_eq!(line, vec![(257, 256)]);
}

#[test]
fn steep_walk_is_connected_and_inclusive() {
    let prev = MousePos::new(Rat::from_int(-256), Rat::from_int(-256));
    let current = MousePos::new(Rat::from_int(-254), Rat::from_int(-250));
    let line = get_canvas_line(Some(prev), current, 512, 512).unwrap();
    assert_eq!(line[0], (0, 0));
    assert_eq!(*line.last().unwrap(), (2, 6));
    assert_eq!(line.len(), 7);
    for i in 1..line.len() {
        assert!((line[i].0 - line[i - 1].0).abs() <= 1);
        assert!((line[i].1 - line[i - 1].1).abs() <= 1);
    }
}

#[test]
fn far_out_of_range_pointer_is_rejected() {
    let current = MousePos::new(Rat::from_int(1 << 40), Rat::zero());
    assert!(get_canvas_line(None, current, 512, 512).is_none());
}
