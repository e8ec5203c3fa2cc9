//! Tests for the orthographic camera and the quad compositor data.

use matter_sandbox::camera::{apply_world_to_screen, cursor_to_world, OrthographicCamera};
use matter_sandbox::line::{CurrentMousePos, MousePos, PreviousMousePos};
use matter_sandbox::quad::{quad_push_constants, DrawQuadPipeline, TexturedQuad};
use matter_sandbox::rat::Rat;

#[test]
fn zoom_to_fit_vertical_sets_the_exact_ratio() {
    let mut cam = OrthographicCamera::default();
    cam.zoom_to_fit_vertical_pixels(512, 1080);
    assert_eq!(cam.scale, Rat::new(512, 1080));
    assert_eq!(cam.scale, Rat { num: 64, den: 135 });
}

#[test]
fn world_origin_maps_to_the_viewport_center() {
    let mut cam = OrthographicCamera::default();
    cam.update(1920, 1080);
    cam.zoom_to_fit_vertical_pixels(512, 1080);
    let t = cam.world_to_screen().unwrap();
    let (sx, sy) = apply_world_to_screen(&t, Rat::zero(), Rat::zero()).unwrap();
    assert_eq!(sx, Rat::from_int(960));
    assert_eq!(sy, Rat::from_int(540));
}

#[test]
fn viewport_center_pixel_maps_to_the_world_origin() {
    // For any scale, the center pixel converts to world (0, 0) when the
    // camera position is zero.
    for (num, den) in [(1i64, 1i64), (64, 135), (7, 3), (1, 1000)] {
        let scale = Rat::new(num, den);
        let w = cursor_to_world(
            Rat::from_int(960),
            Rat::from_int(540),
            1920,
            1080,
            Rat::zero(),
            Rat::zero(),
            scale,
        )
        .unwrap();
        assert_eq!(w, (Rat::zero(), Rat::zero()));
    }
}

#[test]
fn cursor_to_world_scales_and_translates() {
    // cursor (970, 545) on a 1920x1080 viewport, scale 1/2, position
    // (3, -4): world = (cursor - center) * scale - position.
    let w = cursor_to_world(
        Rat::from_int(970),
        Rat::from_int(545),
        1920,
        1080,
        Rat::from_int(3),
        Rat::from_int(-4),
        Rat::new(1, 2),
    )
    .unwrap();
    assert_eq!(w.0, Rat::from_int(2)); // 10 * 1/2 - 3
    assert_eq!(w.1, Rat::new(13, 2)); // 5 * 1/2 + 4
}

#[test]
fn zoom_out_then_in_restores_the_scale() {
    let mut cam = OrthographicCamera::default();
    cam.zoom_to_fit_vertical_pixels(512, 1080);
    let before = cam.scale;
    assert!(cam.zoom_out());
    assert_eq!(cam.scale, Rat::new(64 * 21, 135 * 20));
    assert!(cam.zoom_in());
    assert_eq!(cam.scale, before);
}

#[test]
fn pan_adds_the_displacement() {
    let mut cam = OrthographicCamera::default();
    assert!(cam.pan(Rat::new(3, 2), Rat::from_int(-7)));
    assert_eq!(cam.pos_x, Rat::new(3, 2));
    assert_eq!(cam.pos_y, Rat::from_int(-7));
    assert!(cam.pan(Rat::new(1, 2), Rat::from_int(7)));
    assert_eq!(cam.pos_x, Rat::from_int(2));
    assert_eq!(cam.pos_y, Rat::zero());
}

#[test]
fn update_stores_the_viewport() {
    let mut cam = OrthographicCamera::default();
    cam.update(800, 600);
    assert_eq!(cam.viewport_w, 800);
    assert_eq!(cam.viewport_h, 600);
    cam.update(800, 600);
    assert_eq!(cam.viewport_w, 800);
    assert_eq!(cam.viewport_h, 600);
}

#[test]
fn unit_quad_spans_half_a_unit_each_way() {
    let white = (
        Rat::from_int(1),
        Rat::from_int(1),
        Rat::from_int(1),
        Rat::from_int(1),
    );
    let quad = TexturedQuad::new(Rat::from_int(1), Rat::from_int(1), white).unwrap();
    assert_eq!(quad.vertices.len(), 4);
    let half = Rat::new(1, 2);
    let neg_half = Rat::new(-1, 2);
    assert_eq!(quad.vertices[0].position, (neg_half, neg_half));
    assert_eq!(quad.vertices[1].position, (neg_half, half));
    assert_eq!(quad.vertices[2].position, (half, half));
    assert_eq!(quad.vertices[3].position, (half, neg_half));
    assert_eq!(quad.indices, vec![0, 2, 1, 0, 3, 2]);
    let mesh = quad.to_mesh();
    assert_eq!(mesh.indices, vec![0, 2, 1, 0, 3, 2]);
    assert_eq!(mesh.vertices.len(), 4);
}

#[test]
fn push_constants_scale_by_image_size_with_flips() {
    let mut cam = OrthographicCamera::default();
    cam.update(1920, 1080);
    let t = cam.world_to_screen().unwrap();
    let pc = quad_push_constants(t, 512, 256, false, false);
    assert_eq!(pc.scale_x, 512);
    assert_eq!(pc.scale_y, 256);
    let pc = quad_push_constants(t, 512, 256, true, true);
    assert_eq!(pc.scale_x, -512);
    assert_eq!(pc.scale_y, -256);
    assert_eq!(pc.world_to_screen, t);
}

#[test]
fn quad_pipeline_produces_one_indexed_draw() {
    let mut cam = OrthographicCamera::default();
    cam.update(1920, 1080);
    cam.zoom_to_fit_vertical_pixels(512, 1080);
    let pipeline = DrawQuadPipeline::new();
    assert_eq!(pipeline.quad.indices, vec![0, 2, 1, 0, 3, 2]);
    assert_eq!(pipeline.quad.vertices.len(), 4);
    let call = pipeline.draw(1920, 1080, &cam, 512, 512, false, true).unwrap();
    assert_eq!(call.viewport_w, 1920);
    assert_eq!(call.viewport_h, 1080);
    assert_eq!(call.index_count, 6);
    assert_eq!(call.push.scale_x, 512);
    assert_eq!(call.push.scale_y, -512);
    assert_eq!(call.push.world_to_screen, cam.world_to_screen().unwrap());
}

#[test]
fn mouse_resources_carry_optional_positions() {
    let prev = PreviousMousePos(None);
    assert_eq!(prev.0, None);
    let pos = MousePos::new(Rat::from_int(1), Rat::from_int(2));
    let current = CurrentMousePos(Some(pos));
    assert_eq!(current.0, Some(pos));
}

#[test]
fn world_to_screen_reports_unrepresentable_translations() {
    // position / scale + viewport/2 = (2 * i64::MAX + 1) / 2, whose reduced
    // numerator exceeds i64.
    let mut cam = OrthographicCamera::default();
    cam.update(1, 1);
    assert!(cam.pan(Rat::from_int(i64::MAX), Rat::zero()));
    assert!(cam.world_to_screen().is_none());
}

#[test]
fn quad_with_unrepresentable_half_extent_is_rejected() {
    let white = (
        Rat::from_int(1),
        Rat::from_int(1),
        Rat::from_int(1),
        Rat::from_int(1),
    );
    // Halving 1 / i64::MAX needs denominator 2 * i64::MAX.
    let narrow = Rat::new(1, i64::MAX);
    assert!(TexturedQuad::new(narrow, Rat::from_int(1), white).is_none());
}

#[test]
fn default_settings_are_a_small_red_brush() {
    let settings = matter_sandbox::DynamicSettings::default();
    assert_eq!(settings.brush_radius, 4);
    assert_eq!(settings.draw_matter, 0xff0000ff);
}
