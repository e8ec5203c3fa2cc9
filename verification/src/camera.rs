//! Orthographic 2-D camera: translation plus uniform scale, over exact
//! rationals.
//!
//! The camera maps world coordinates to viewport pixels. A pointer pixel is
//! converted to world space as `(cursor - viewport/2) * scale - position`;
//! the world-to-screen transform is the inverse affine map
//! `screen = (world + position) / scale + viewport/2`, carried per axis as a
//! scale coefficient and a translation. Zoom ticks multiply or divide the
//! scale by a fixed factor; panning adds a displacement to the position.

use vstd::prelude::*;

use crate::rat::{
    lemma_canon, lemma_rat_make, lemma_rat_make_canonical, lemma_rat_make_zero, rat_add_spec,
    rat_div_spec, rat_mul_spec, rat_new_spec, rat_sub_spec, rat_zero, Rat,
};

verus! {

/// Scale multiplier for one zoom-out scroll tick; a zoom-in tick divides by
/// the same factor (multiplies by its reciprocal), so the two directions are
/// applied asymmetrically on purpose.
pub open spec fn zoom_step_out() -> Rat {
    Rat { num: 21, den: 20 }
}

/// Scale multiplier for one zoom-in scroll tick: the reciprocal of
/// [`zoom_step_out`].
pub open spec fn zoom_step_in() -> Rat {
    Rat { num: 20, den: 21 }
}

/// Both zoom step factors are canonical rationals.
proof fn lemma_zoom_steps_wf()
    ensures
        zoom_step_out().wf(),
        zoom_step_in().wf(),
{
    reveal_with_fuel(crate::rat::gcd_nat, 5);
}

/// Simple orthographic camera: world-space position, uniform scale, and the
/// last-known viewport size in pixels.
#[derive(Debug, Clone, Copy, PartialEq, Eq, Structural)]
pub struct OrthographicCamera {
    /// World-space x position of the camera.
    pub pos_x: Rat,
    /// World-space y position of the camera.
    pub pos_y: Rat,
    /// Uniform scale: how many world units one viewport pixel spans.
    pub scale: Rat,
    /// Viewport width in pixels, from the latest resize.
    pub viewport_w: u32,
    /// Viewport height in pixels, from the latest resize.
    pub viewport_h: u32,
}

/// Per-axis world-to-screen transform: `screen = world * s + t` on each
/// axis, with `s` the reciprocal of the camera scale and `t` combining the
/// camera position and the viewport center.
#[derive(Debug, Clone, Copy, PartialEq, Eq, Structural)]
pub struct WorldToScreen {
    /// Scale coefficient for the x axis.
    pub sx: Rat,
    /// Scale coefficient for the y axis.
    pub sy: Rat,
    /// Translation for the x axis.
    pub tx: Rat,
    /// Translation for the y axis.
    pub ty: Rat,
}

impl WorldToScreen {
    /// All four coefficients are well-formed rationals.
    pub open spec fn wf(self) -> bool {
        self.sx.wf() && self.sy.wf() && self.tx.wf() && self.ty.wf()
    }
}

/// The world-to-screen transform of a camera:
/// `screen = (world + position) / scale + viewport/2` per axis, or `None`
/// when a coefficient does not fit the rational representation.
pub open spec fn world_to_screen_spec(c: OrthographicCamera) -> Option<WorldToScreen> {
    let s = Rat { num: c.scale.den, den: c.scale.num };
    match rat_div_spec(c.pos_x, c.scale) {
        None => None,
        Some(qx) => match rat_add_spec(qx, rat_new_spec(c.viewport_w as int, 2)) {
            None => None,
            Some(tx) => match rat_div_spec(c.pos_y, c.scale) {
                None => None,
                Some(qy) => match rat_add_spec(qy, rat_new_spec(c.viewport_h as int, 2)) {
                    None => None,
                    Some(ty) => Some(WorldToScreen { sx: s, sy: s, tx, ty }),
                },
            },
        },
    }
}

/// Application of a world-to-screen transform to a world point:
/// `screen = world * s + t` per axis.
pub open spec fn apply_world_to_screen_spec(t: WorldToScreen, wx: Rat, wy: Rat) -> Option<
    (Rat, Rat),
> {
    match rat_mul_spec(wx, t.sx) {
        None => None,
        Some(mx) => match rat_add_spec(mx, t.tx) {
            None => None,
            Some(rx) => match rat_mul_spec(wy, t.sy) {
                None => None,
                Some(my) => match rat_add_spec(my, t.ty) {
                    None => None,
                    Some(ry) => Some((rx, ry)),
                },
            },
        },
    }
}

/// One axis of the pointer-to-world conversion:
/// `world = (cursor - viewport/2) * scale - position`.
pub open spec fn cursor_axis_spec(cursor: Rat, viewport: u32, scale: Rat, pos: Rat) -> Option<
    Rat,
> {
    match rat_sub_spec(cursor, rat_new_spec(viewport as int, 2)) {
        None => None,
        Some(c) => match rat_mul_spec(c, scale) {
            None => None,
            Some(m) => rat_sub_spec(m, pos),
        },
    }
}

/// Pointer-to-world conversion for both axes.
pub open spec fn cursor_to_world_spec(
    cursor_x: Rat,
    cursor_y: Rat,
    viewport_w: u32,
    viewport_h: u32,
    pos_x: Rat,
    pos_y: Rat,
    scale: Rat,
) -> Option<(Rat, Rat)> {
    match cursor_axis_spec(cursor_x, viewport_w, scale, pos_x) {
        None => None,
        Some(wx) => match cursor_axis_spec(cursor_y, viewport_h, scale, pos_y) {
            None => None,
            Some(wy) => Some((wx, wy)),
        },
    }
}

impl OrthographicCamera {
    /// Well-formed camera: coordinates are canonical rationals and the scale
    /// is strictly positive.
    pub open spec fn wf(self) -> bool {
        &&& self.pos_x.wf()
        &&& self.pos_y.wf()
        &&& self.scale.wf()
        &&& self.scale.num >= 1
    }

    /// Update the viewport size; called whenever the window is resized, and
    /// idempotent when the size is unchanged.
    pub fn update(&mut self, width: u32, height: u32)
        requires
            old(self).wf(),
        ensures
            final(self).wf(),
            final(self).viewport_w == width,
            final(self).viewport_h == height,
            final(self).pos_x == old(self).pos_x,
            final(self).pos_y == old(self).pos_y,
            final(self).scale == old(self).scale,
    {
        self.viewport_w = width;
        self.viewport_h = height;
    }

    /// Zoom the camera so that `target_pixels` world units span the full
    /// viewport height: the scale becomes exactly
    /// `target_pixels / viewport_height`.
    pub fn zoom_to_fit_vertical_pixels(&mut self, target_pixels: u32, viewport_height: u32)
        requires
            old(self).wf(),
            target_pixels >= 1,
            viewport_height >= 1,
        ensures
            final(self).wf(),
            final(self).scale == rat_new_spec(target_pixels as int, viewport_height as int),
            final(self).pos_x == old(self).pos_x,
            final(self).pos_y == old(self).pos_y,
            final(self).viewport_w == old(self).viewport_w,
            final(self).viewport_h == old(self).viewport_h,
    {
        proof {
            lemma_canon(target_pixels as int, viewport_height as int);
        }
        self.scale = Rat::new(target_pixels as i64, viewport_height as i64);
    }

    /// One zoom-out scroll tick: multiply the scale by the zoom factor.
    /// Returns `false`, leaving the camera unchanged, exactly when the new
    /// scale would not fit the rational representation.
    pub fn zoom_out(&mut self) -> (r: bool)
        requires
            old(self).wf(),
        ensures
            final(self).wf(),
            final(self).pos_x == old(self).pos_x,
            final(self).pos_y == old(self).pos_y,
            final(self).viewport_w == old(self).viewport_w,
            final(self).viewport_h == old(self).viewport_h,
            r <==> rat_mul_spec(old(self).scale, zoom_step_out()) is Some,
            r ==> Some(final(self).scale) == rat_mul_spec(old(self).scale, zoom_step_out()),
            !r ==> final(self).scale == old(self).scale,
    {
        proof {
            lemma_zoom_steps_wf();
        }
        let factor = Rat { num: 21, den: 20 };
        self.apply_zoom(factor)
    }

    /// One zoom-in scroll tick: multiply the scale by the reciprocal zoom
    /// factor. Returns `false`, leaving the camera unchanged, exactly when
    /// the new scale would not fit the rational representation.
    pub fn zoom_in(&mut self) -> (r: bool)
        requires
            old(self).wf(),
        ensures
            final(self).wf(),
            final(self).pos_x == old(self).pos_x,
            final(self).pos_y == old(self).pos_y,
            final(self).viewport_w == old(self).viewport_w,
            final(self).viewport_h == old(self).viewport_h,
            r <==> rat_mul_spec(old(self).scale, zoom_step_in()) is Some,
            r ==> Some(final(self).scale) == rat_mul_spec(old(self).scale, zoom_step_in()),
            !r ==> final(self).scale == old(self).scale,
    {
        proof {
            lemma_zoom_steps_wf();
        }
        let factor = Rat { num: 20, den: 21 };
        self.apply_zoom(factor)
    }

    /// Multiply the scale by a positive factor, keeping it positive.
    fn apply_zoom(&mut self, factor: Rat) -> (r: bool)
        requires
            old(self).wf(),
            factor.wf(),
            factor.num >= 1,
        ensures
            final(self).wf(),
            final(self).pos_x == old(self).pos_x,
            final(self).pos_y == old(self).pos_y,
            final(self).viewport_w == old(self).viewport_w,
            final(self).viewport_h == old(self).viewport_h,
            r <==> rat_mul_spec(old(self).scale, factor) is Some,
            r ==> Some(final(self).scale) == rat_mul_spec(old(self).scale, factor),
            !r ==> final(self).scale == old(self).scale,
    {
        proof {
            let sn = old(self).scale.num as int;
            let sd = old(self).scale.den as int;
            let fnum = factor.num as int;
            let fden = factor.den as int;
            assert(sn * fnum >= 1 && sd * fden >= 1) by (nonlinear_arith)
                requires
                    sn >= 1,
                    fnum >= 1,
                    sd >= 1,
                    fden >= 1,
            ;
            lemma_rat_make(sn * fnum, sd * fden);
        }
        match self.scale.checked_mul(factor) {
            Some(s) => {
                self.scale = s;
                true
            },
            None => false,
        }
    }

    /// Pan the camera by a world-space displacement. Returns `false`,
    /// leaving the position unchanged, exactly when a displaced coordinate
    /// would not fit the rational representation.
    pub fn pan(&mut self, dx: Rat, dy: Rat) -> (r: bool)
        requires
            old(self).wf(),
            dx.wf(),
            dy.wf(),
        ensures
            final(self).wf(),
            final(self).scale == old(self).scale,
            final(self).viewport_w == old(self).viewport_w,
            final(self).viewport_h == old(self).viewport_h,
            r <==> (rat_add_spec(old(self).pos_x, dx) is Some && rat_add_spec(
                old(self).pos_y,
                dy,
            ) is Some),
            r ==> Some(final(self).pos_x) == rat_add_spec(old(self).pos_x, dx) && Some(
                final(self).pos_y,
            ) == rat_add_spec(old(self).pos_y, dy),
            !r ==> final(self).pos_x == old(self).pos_x && final(self).pos_y == old(self).pos_y,
    {
        let nx = self.pos_x.checked_add(dx);
        let ny = self.pos_y.checked_add(dy);
        match (nx, ny) {
            (Some(px), Some(py)) => {
                self.pos_x = px;
                self.pos_y = py;
                true
            },
            _ => false,
        }
    }

    /// The current world-to-screen transform, combining position, scale and
    /// viewport; recomputed deterministically from the camera state.
    pub fn world_to_screen(&self) -> (r: Option<WorldToScreen>)
        requires
            self.wf(),
        ensures
            r == world_to_screen_spec(*self),
            r matches Some(t) ==> t.wf(),
    {
        let s = self.scale.recip();
        let half_w = Rat::new(self.viewport_w as i64, 2);
        let half_h = Rat::new(self.viewport_h as i64, 2);
        let tx = match self.pos_x.checked_div(self.scale) {
            Some(qx) => match qx.checked_add(half_w) {
                Some(tx) => tx,
                None => {
                    return None;
                },
            },
            None => {
                return None;
            },
        };
        let ty = match self.pos_y.checked_div(self.scale) {
            Some(qy) => match qy.checked_add(half_h) {
                Some(ty) => ty,
                None => {
                    return None;
                },
            },
            None => {
                return None;
            },
        };
        Some(WorldToScreen { sx: s, sy: s, tx, ty })
    }
}

impl Default for OrthographicCamera {
    /// A camera at the world origin with unit scale and a degenerate
    /// one-pixel viewport; `update` supplies the real viewport each frame.
    fn default() -> (r: OrthographicCamera)
        ensures
            r.wf(),
            r.pos_x == rat_zero(),
            r.pos_y == rat_zero(),
            r.scale == (Rat { num: 1, den: 1 }),
            r.viewport_w == 1u32,
            r.viewport_h == 1u32,
    {
        OrthographicCamera {
            pos_x: Rat::zero(),
            pos_y: Rat::zero(),
            scale: Rat::from_int(1),
            viewport_w: 1,
            viewport_h: 1,
        }
    }
}

/// Apply a world-to-screen transform to a world point.
pub fn apply_world_to_screen(t: &WorldToScreen, wx: Rat, wy: Rat) -> (r: Option<(Rat, Rat)>)
    requires
        t.wf(),
        wx.wf(),
        wy.wf(),
    ensures
        r == apply_world_to_screen_spec(*t, wx, wy),
{
    match wx.checked_mul(t.sx) {
        None => None,
        Some(mx) => match mx.checked_add(t.tx) {
            None => None,
            Some(rx) => match wy.checked_mul(t.sy) {
                None => None,
                Some(my) => match my.checked_add(t.ty) {
                    None => None,
                    Some(ry) => Some((rx, ry)),
                },
            },
        },
    }
}

/// Converts a cursor pixel position within the viewport to world
/// coordinates: `(cursor - viewport/2) * scale - position` per axis.
pub fn cursor_to_world(
    cursor_x: Rat,
    cursor_y: Rat,
    viewport_w: u32,
    viewport_h: u32,
    pos_x: Rat,
    pos_y: Rat,
    scale: Rat,
) -> (r: Option<(Rat, Rat)>)
    requires
        cursor_x.wf(),
        cursor_y.wf(),
        pos_x.wf(),
        pos_y.wf(),
        scale.wf(),
    ensures
        r == cursor_to_world_spec(cursor_x, cursor_y, viewport_w, viewport_h, pos_x, pos_y, scale),
{
    let wx = match cursor_axis(cursor_x, viewport_w, scale, pos_x) {
        Some(wx) => wx,
        None => {
            return None;
        },
    };
    match cursor_axis(cursor_y, viewport_h, scale, pos_y) {
        Some(wy) => Some((wx, wy)),
        None => None,
    }
}

/// Camera centering law: when the camera position is the world origin, the
/// world-to-screen transform exists and maps the world origin exactly to
/// the viewport center `(viewport_w / 2, viewport_h / 2)`, whatever the
/// scale.
pub proof fn lemma_world_to_screen_centers_origin(c: OrthographicCamera)
    requires
        c.wf(),
        c.pos_x == rat_zero(),
        c.pos_y == rat_zero(),
    ensures
        world_to_screen_spec(c) is Some,
        world_to_screen_spec(c) matches Some(t) ==> apply_world_to_screen_spec(
            t,
            rat_zero(),
            rat_zero(),
        ) == Some(
            (
                rat_new_spec(c.viewport_w as int, 2),
                rat_new_spec(c.viewport_h as int, 2),
            ),
        ),
{
    let half_w = rat_new_spec(c.viewport_w as int, 2);
    let half_h = rat_new_spec(c.viewport_h as int, 2);
    lemma_canon(c.viewport_w as int, 2);
    lemma_canon(c.viewport_h as int, 2);
    // Dividing the zero position by the scale yields zero.
    lemma_rat_make_zero(c.scale.num as int);
    assert(rat_div_spec(rat_zero(), c.scale) == Some(rat_zero()));
    // Adding the viewport half to zero yields the (already canonical) half.
    lemma_rat_make_canonical(half_w);
    lemma_rat_make_canonical(half_h);
    assert(rat_add_spec(rat_zero(), half_w) == Some(half_w));
    assert(rat_add_spec(rat_zero(), half_h) == Some(half_h));
    let t = world_to_screen_spec(c)->Some_0;
    // Applying the transform to the origin: the scaled term vanishes and
    // only the translation, the viewport center, remains.
    lemma_rat_make_zero(t.sx.den as int);
    lemma_rat_make_zero(t.sy.den as int);
    assert(rat_mul_spec(rat_zero(), t.sx) == Some(rat_zero()));
    assert(rat_mul_spec(rat_zero(), t.sy) == Some(rat_zero()));
    assert(rat_add_spec(rat_zero(), t.tx) == Some(t.tx)) by {
        lemma_rat_make_canonical(t.tx);
    }
    assert(rat_add_spec(rat_zero(), t.ty) == Some(t.ty)) by {
        lemma_rat_make_canonical(t.ty);
    }
}

/// Pointer round-trip law: converting the viewport-center pixel to world
/// coordinates with the camera at the origin yields exactly `(0, 0)`, for
/// any scale.
pub proof fn lemma_pointer_center_round_trip(viewport_w: u32, viewport_h: u32, scale: Rat)
    requires
        scale.wf(),
    ensures
        cursor_to_world_spec(
            rat_new_spec(viewport_w as int, 2),
            rat_new_spec(viewport_h as int, 2),
            viewport_w,
            viewport_h,
            rat_zero(),
            rat_zero(),
            scale,
        ) == Some((rat_zero(), rat_zero())),
{
    lemma_center_axis(viewport_w, scale);
    lemma_center_axis(viewport_h, scale);
}

/// One axis of the pointer round-trip law: the center pixel of a viewport
/// maps to world coordinate zero when the camera position is zero.
proof fn lemma_center_axis(viewport: u32, scale: Rat)
    requires
        scale.wf(),
    ensures
        cursor_axis_spec(rat_new_spec(viewport as int, 2), viewport, scale, rat_zero()) == Some(
            rat_zero(),
        ),
{
    let half = rat_new_spec(viewport as int, 2);
    lemma_canon(viewport as int, 2);
    // cursor - viewport/2 == 0, with denominator half.den * half.den.
    assert((half.den as int) * (half.den as int) >= 1) by (nonlinear_arith)
        requires half.den as int >= 1,
    ;
    lemma_rat_make_zero((half.den as int) * (half.den as int));
    assert(rat_sub_spec(half, half) == Some(rat_zero()));
    // 0 * scale == 0, and 0 - 0 == 0.
    lemma_rat_make_zero(scale.den as int);
    assert(rat_mul_spec(rat_zero(), scale) == Some(rat_zero()));
    lemma_rat_make_zero(1);
    assert(rat_sub_spec(rat_zero(), rat_zero()) == Some(rat_zero()));
}

/// One axis of [`cursor_to_world`].
fn cursor_axis(cursor: Rat, viewport: u32, scale: Rat, pos: Rat) -> (r: Option<Rat>)
    requires
        cursor.wf(),
        scale.wf(),
        pos.wf(),
    ensures
        r == cursor_axis_spec(cursor, viewport, scale, pos),
{
    let half = Rat::new(viewport as i64, 2);
    match cursor.checked_sub(half) {
        None => None,
        Some(c) => match c.checked_mul(scale) {
            None => None,
            Some(m) => m.checked_sub(pos),
        },
    }
}

} // verus!
