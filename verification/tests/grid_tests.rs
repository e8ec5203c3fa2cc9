//! Tests for the grid store, the brush rasterizer and the colorization
//! step.

use matter_sandbox::grid::CASimulator;
use matter_sandbox::line::{get_canvas_line, MousePos};
use matter_sandbox::rat::Rat;
use matter_sandbox::EMPTY_MATTER;

const RED: u32 = 0xff0000ff;

#[test]
fn new_grid_is_empty() {
    let sim = CASimulator::new(64, 32);
    assert_eq!(sim.width(), 64);
    assert_eq!(sim.height(), 32);
    for y in 0..32 {
        for x in 0..64 {
            assert_eq!(sim.matter_at(x, y), EMPTY_MATTER);
        }
    }
    assert_eq!(sim.color_image().len(), 64 * 32);
}

#[test]
fn index_uses_the_width_as_row_stride() {
    // On a rectangular grid the row stride must be the width, not the
    // height: cell (5, 2) of a 64x32 grid lives at 2 * 64 + 5.
    let sim = CASimulator::new(64, 32);
    assert_eq!(sim.index(5, 2), 2 * 64 + 5);
    assert_eq!(sim.index(0, 0), 0);
    assert_eq!(sim.index(63, 31), 31 * 64 + 63);
}

#[test]
fn index_is_injective_over_a_rectangular_grid() {
    let sim = CASimulator::new(64, 32);
    let mut seen = vec![false; 64 * 32];
    for y in 0..32 {
        for x in 0..64 {
            let i = sim.index(x, y);
            assert!(!seen[i], "index {} hit twice, at ({}, {})", i, x, y);
            seen[i] = true;
        }
    }
}

#[test]
fn is_inside_checks_both_axes() {
    let sim = CASimulator::new(64, 32);
    assert!(sim.is_inside(0, 0));
    assert!(sim.is_inside(63, 31));
    assert!(!sim.is_inside(64, 0));
    assert!(!sim.is_inside(0, 32));
    assert!(!sim.is_inside(-1, 0));
    assert!(!sim.is_inside(0, -1));
}

#[test]
fn single_point_stamp_covers_the_rounded_disc() {
    let mut sim = CASimulator::new(64, 64);
    let line = vec![(10, 10)];
    sim.draw_matter(&line, 4, RED);
    // Within rounded distance 4: dx^2 + dy^2 <= 4*4 + 4 = 20.
    assert_eq!(sim.matter_at(10, 10), RED);
    assert_eq!(sim.matter_at(14, 10), RED); // distance 4
    assert_eq!(sim.matter_at(13, 13), RED); // distance ~4.24, rounds to 4
    assert_eq!(sim.matter_at(14, 12), RED); // squared distance exactly 20
    assert_eq!(sim.matter_at(10, 14), RED);
    // Beyond it: untouched.
    assert_eq!(sim.matter_at(14, 13), EMPTY_MATTER); // distance 5
    assert_eq!(sim.matter_at(15, 10), EMPTY_MATTER); // distance 5
    assert_eq!(sim.matter_at(10, 15), EMPTY_MATTER);
}

#[test]
fn stamp_near_the_border_skips_out_of_bounds_cells() {
    let mut sim = CASimulator::new(32, 32);
    let line = vec![(0, 0)];
    sim.draw_matter(&line, 4, RED);
    assert_eq!(sim.matter_at(0, 0), RED);
    assert_eq!(sim.matter_at(4, 0), RED);
    assert_eq!(sim.matter_at(0, 4), RED);
    assert_eq!(sim.matter_at(5, 0), EMPTY_MATTER);
    // The clipped part of the disc is silently discarded; the rest of the
    // grid is untouched.
    assert_eq!(sim.matter_at(31, 31), EMPTY_MATTER);
}

#[test]
fn out_of_bounds_line_points_are_skipped() {
    let mut sim = CASimulator::new(32, 32);
    let line = vec![(-100, -100), (200, 200)];
    sim.draw_matter(&line, 4, RED);
    for y in 0..32 {
        for x in 0..32 {
            assert_eq!(sim.matter_at(x, y), EMPTY_MATTER);
        }
    }
}

#[test]
fn later_stroke_overwrites_earlier_matter() {
    let mut sim = CASimulator::new(32, 32);
    sim.draw_matter(&vec![(8, 8)], 2, RED);
    sim.draw_matter(&vec![(8, 8)], 1, 7);
    assert_eq!(sim.matter_at(8, 8), 7);
    assert_eq!(sim.matter_at(8, 6), RED); // outside radius 1, kept from the first stroke
}

#[test]
fn zero_radius_stamp_writes_one_cell() {
    let mut sim = CASimulator::new(32, 32);
    sim.draw_matter(&vec![(3, 5)], 0, RED);
    assert_eq!(sim.matter_at(3, 5), RED);
    assert_eq!(sim.matter_at(4, 5), EMPTY_MATTER);
    assert_eq!(sim.matter_at(3, 6), EMPTY_MATTER);
}

#[test]
fn step_colorizes_the_grid_into_the_image() {
    let mut sim = CASimulator::new(32, 32);
    sim.draw_matter(&vec![(8, 8)], 0, RED);
    sim.step();
    let image = sim.color_image();
    assert_eq!(image[8 * 32 + 8], RED);
    assert_eq!(image[0], EMPTY_MATTER);
    // The grid itself is unchanged by the colorization pass.
    assert_eq!(sim.matter_at(8, 8), RED);
}

#[test]
fn repeated_steps_give_a_stable_image() {
    let mut sim = CASimulator::new(64, 64);
    sim.draw_matter(&vec![(5, 9)], 3, RED);
    sim.step();
    let first = sim.color_image().clone();
    sim.step();
    sim.step();
    assert_eq!(sim.color_image(), &first);
}

#[test]
fn work_groups_tile_the_canvas() {
    let sim = CASimulator::new(512, 256);
    assert_eq!(sim.num_work_groups(), (16, 8));
}

#[test]
fn end_to_end_brush_stroke_colors_the_image() {
    // A 512x512 empty canvas; one brush stroke of radius 4 and matter RED
    // at canvas point (256, 256), which is the world origin.
    let mut sim = CASimulator::new(512, 512);
    let current = MousePos::new(Rat::zero(), Rat::zero());
    let line = get_canvas_line(None, current, 512, 512).unwrap();
    assert_eq!(line, vec![(256, 256)]);
    sim.draw_matter(&line, 4, RED);
    sim.step();
    let image = sim.color_image();
    assert_eq!(image[256 * 512 + 256], RED);
    // Every pixel farther than rounded distance 4 keeps the empty color.
    for y in 0..512i64 {
        for x in 0..512i64 {
            let d2 = (x - 256) * (x - 256) + (y - 256) * (y - 256);
            let pixel = image[(y * 512 + x) as usize];
            if d2 > 4 * 4 + 4 {
                assert_eq!(pixel, EMPTY_MATTER);
            } else {
                assert_eq!(pixel, RED);
            }
        }
    }
}
