//! The matter grid and its simulation pipeline.
//!
//! [`CASimulator`] owns the double-buffered grid of `u32` matter identifiers
//! and the RGBA color image derived from it. Brush strokes write discs of
//! matter along a rasterized pointer line; each simulation step colorizes the
//! current grid into the image. The colorization pass is a pure function of
//! the grid (no neighbor-dependent transition rule is part of the pipeline),
//! so stepping without intervening brush writes leaves the image unchanged.

use vstd::arithmetic::div_mod::lemma_fundamental_div_mod;
use vstd::prelude::*;

use crate::{EMPTY_MATTER, LOCAL_SIZE_X, LOCAL_SIZE_Y, MAX_BRUSH_RADIUS, MAX_CANVAS_DIM};

verus! {

/// Linear index of the grid cell `(x, y)` in row-major order: `y * w + x`.
/// The row stride is the grid's width, so rectangular grids index correctly.
pub open spec fn grid_index(w: int, x: int, y: int) -> int {
    y * w + x
}

/// Is `(x, y)` a coordinate of a `w x h` grid?
pub open spec fn cell_in_bounds(w: int, h: int, x: int, y: int) -> bool {
    0 <= x < w && 0 <= y < h
}

/// Does the offset `(dx, dy)` lie within a brush of radius `r`?
///
/// The brush covers every cell whose Euclidean distance from the stroke
/// point, rounded to the nearest integer, is at most `r`. For integers this
/// is exactly `dx^2 + dy^2 <= r^2 + r`, since `round(s) <= r` iff
/// `s < r + 1/2` iff `dx^2 + dy^2 < r^2 + r + 1/4`.
pub open spec fn in_disc(dx: int, dy: int, r: int) -> bool {
    dx * dx + dy * dy <= r * r + r
}

/// Does the single stroke point `p` write matter into cell `(x, y)`?
/// Out-of-bounds stroke points are skipped entirely.
pub open spec fn point_covers(p: (i32, i32), r: int, w: int, h: int, x: int, y: int) -> bool {
    cell_in_bounds(w, h, p.0 as int, p.1 as int) && in_disc(x - p.0 as int, y - p.1 as int, r)
}

/// Does any point of the stroke `line` write matter into cell `(x, y)`?
pub open spec fn stroke_covers(
    line: Seq<(i32, i32)>,
    r: int,
    w: int,
    h: int,
    x: int,
    y: int,
) -> bool {
    exists|i: int| 0 <= i < line.len() && point_covers(#[trigger] line[i], r, w, h, x, y)
}

/// The grid after stamping a brush stroke: every in-bounds cell covered by
/// the stroke holds `matter`, every other cell keeps its old value.
pub open spec fn stamped(
    g: Seq<u32>,
    w: int,
    h: int,
    line: Seq<(i32, i32)>,
    r: int,
    matter: u32,
) -> Seq<u32> {
    Seq::new(g.len(), |i: int| if stroke_covers(line, r, w, h, i % w, i / w) {
        matter
    } else {
        g[i]
    })
}

/// Color written to the image for a cell holding `m`: the matter identifier
/// is itself the packed RGBA value, and the empty sentinel stays the empty
/// (fully transparent) color.
pub open spec fn color_of(m: u32) -> u32 {
    m
}

/// The color image produced from a grid: one pixel per cell, in the same
/// row-major order.
pub open spec fn colorize(g: Seq<u32>) -> Seq<u32> {
    Seq::new(g.len(), |i: int| color_of(g[i]))
}

/// The linear index function is injective over the coordinate space, so two
/// distinct in-bounds cells never share a grid slot.
pub proof fn lemma_grid_index_injective(w: int, h: int, x1: int, y1: int, x2: int, y2: int)
    requires
        cell_in_bounds(w, h, x1, y1),
        cell_in_bounds(w, h, x2, y2),
        grid_index(w, x1, y1) == grid_index(w, x2, y2),
    ensures
        x1 == x2 && y1 == y2,
{
    assert(x1 == x2 && y1 == y2) by (nonlinear_arith)
        requires
            0 <= x1 < w,
            0 <= x2 < w,
            y1 * w + x1 == y2 * w + x2,
    ;
}

/// The coordinates recovered from a linear index are in bounds and map back
/// to the same index.
pub proof fn lemma_cell_of_index(w: int, h: int, i: int)
    requires
        w >= 1,
        0 <= i < w * h,
    ensures
        cell_in_bounds(w, h, i % w, i / w),
        grid_index(w, i % w, i / w) == i,
{
    lemma_fundamental_div_mod(i, w);
    assert(0 <= i % w < w);
    assert(0 <= i / w < h && (i / w) * w + i % w == i) by (nonlinear_arith)
        requires
            w >= 1,
            0 <= i < w * h,
            i == w * (i / w) + i % w,
            0 <= i % w < w,
    ;
}

/// A cell within a brush disc of radius `r` lies within the surrounding
/// `(2r+1) x (2r+1)` box.
proof fn lemma_disc_box(dx: int, dy: int, r: int)
    requires
        r >= 0,
        in_disc(dx, dy, r),
    ensures
        -r <= dx <= r,
        -r <= dy <= r,
{
    assert(-r <= dx <= r && -r <= dy <= r) by (nonlinear_arith)
        requires
            r >= 0,
            dx * dx + dy * dy <= r * r + r,
    ;
}

/// The square of a value bounded by `m` is bounded by `m * m`.
proof fn lemma_square_bound(a: int, m: int)
    requires
        -m <= a <= m,
        0 <= m,
    ensures
        0 <= a * a <= m * m,
{
    assert(0 <= a * a <= m * m) by (nonlinear_arith)
        requires -m <= a <= m, 0 <= m,
    ;
}

/// An in-bounds cell's linear index lies within the grid buffer.
pub proof fn lemma_grid_index_bounds(w: int, h: int, x: int, y: int)
    requires
        cell_in_bounds(w, h, x, y),
    ensures
        0 <= grid_index(w, x, y) < w * h,
{
    assert(0 <= y * w + x < w * h) by (nonlinear_arith)
        requires 0 <= x < w, 0 <= y < h,
    ;
}

/// Extending a stroke prefix by one point extends its coverage by exactly
/// that point's disc.
proof fn lemma_stroke_covers_step(
    line: Seq<(i32, i32)>,
    li: int,
    r: int,
    w: int,
    h: int,
    x: int,
    y: int,
)
    requires
        0 <= li < line.len(),
    ensures
        stroke_covers(line.take(li + 1), r, w, h, x, y) <==> (stroke_covers(
            line.take(li),
            r,
            w,
            h,
            x,
            y,
        ) || point_covers(line[li], r, w, h, x, y)),
{
    let pre = line.take(li);
    let ext = line.take(li + 1);
    if stroke_covers(ext, r, w, h, x, y) {
        let i = choose|i: int| 0 <= i < ext.len() && point_covers(#[trigger] ext[i], r, w, h, x, y);
        assert(ext[i] == line[i]);
        if i < li {
            assert(pre[i] == line[i]);
            assert(stroke_covers(pre, r, w, h, x, y));
        }
    }
    if stroke_covers(pre, r, w, h, x, y) {
        let i = choose|i: int| 0 <= i < pre.len() && point_covers(#[trigger] pre[i], r, w, h, x, y);
        assert(pre[i] == line[i]);
        assert(ext[i] == line[i]);
        assert(stroke_covers(ext, r, w, h, x, y));
    }
    if point_covers(line[li], r, w, h, x, y) {
        assert(ext[li] == line[li]);
        assert(stroke_covers(ext, r, w, h, x, y));
    }
}

/// Cellular-automata simulation pipeline: the authoritative grid state and
/// the color image materialized from it each step.
pub struct CASimulator {
    width: u32,
    height: u32,
    matter_in: Vec<u32>,
    matter_out: Vec<u32>,
    image: Vec<u32>,
}

impl CASimulator {
    /// Grid width in cells.
    pub closed spec fn grid_width(self) -> int {
        self.width as int
    }

    /// Grid height in cells.
    pub closed spec fn grid_height(self) -> int {
        self.height as int
    }

    /// The current grid: the buffer brush strokes write into and the
    /// colorization pass reads from.
    pub closed spec fn grid(self) -> Seq<u32> {
        self.matter_in@
    }

    /// The secondary ping-pong grid buffer, bound to the compute dispatch for
    /// a future transition rule; the colorization pass leaves it untouched.
    pub closed spec fn scratch(self) -> Seq<u32> {
        self.matter_out@
    }

    /// The RGBA color image, one `u32` pixel per cell.
    pub closed spec fn image_seq(self) -> Seq<u32> {
        self.image@
    }

    /// Well-formed simulator: canvas dimensions divide evenly into workgroup
    /// tiles, stay within the supported maximum, and all three buffers hold
    /// exactly one value per cell.
    pub closed spec fn wf(self) -> bool {
        &&& self.width % LOCAL_SIZE_X == 0
        &&& self.height % LOCAL_SIZE_Y == 0
        &&& self.width <= MAX_CANVAS_DIM
        &&& self.height <= MAX_CANVAS_DIM
        &&& self.matter_in@.len() == (self.width as int) * (self.height as int)
        &&& self.matter_out@.len() == (self.width as int) * (self.height as int)
        &&& self.image@.len() == (self.width as int) * (self.height as int)
    }

    /// Create a simulator over a `width x height` canvas with both grid
    /// buffers empty and the image cleared. Canvas dimensions must divide
    /// evenly by the workgroup tile size so no cell remains unsimulated.
    pub fn new(width: u32, height: u32) -> (r: CASimulator)
        requires
            width % LOCAL_SIZE_X == 0,
            height % LOCAL_SIZE_Y == 0,
            width <= MAX_CANVAS_DIM,
            height <= MAX_CANVAS_DIM,
        ensures
            r.wf(),
            r.grid_width() == width,
            r.grid_height() == height,
            r.grid() == Seq::new((width * height) as nat, |i: int| EMPTY_MATTER),
            r.scratch() == Seq::new((width * height) as nat, |i: int| EMPTY_MATTER),
            r.image_seq() == Seq::new((width * height) as nat, |i: int| 0u32),
    {
        let matter_in = empty_grid(width, height);
        let matter_out = empty_grid(width, height);
        let image = empty_grid(width, height);
        CASimulator { width, height, matter_in, matter_out, image }
    }

    /// Grid width in cells.
    pub fn width(&self) -> (r: u32)
        ensures
            r as int == self.grid_width(),
    {
        self.width
    }

    /// Grid height in cells.
    pub fn height(&self) -> (r: u32)
        ensures
            r as int == self.grid_height(),
    {
        self.height
    }

    /// The compute dispatch is tiled into this many workgroups per axis.
    pub fn num_work_groups(&self) -> (r: (u32, u32))
        requires
            self.wf(),
        ensures
            r.0 == self.grid_width() / LOCAL_SIZE_X as int,
            r.1 == self.grid_height() / LOCAL_SIZE_Y as int,
    {
        (self.width / LOCAL_SIZE_X, self.height / LOCAL_SIZE_Y)
    }

    /// Are we within simulation bounds?
    pub fn is_inside(&self, x: i32, y: i32) -> (r: bool)
        requires
            self.wf(),
        ensures
            r == cell_in_bounds(self.grid_width(), self.grid_height(), x as int, y as int),
    {
        x >= 0 && x < self.width as i32 && y >= 0 && y < self.height as i32
    }

    /// Linear index of the in-bounds cell `(x, y)`.
    pub fn index(&self, x: i32, y: i32) -> (r: usize)
        requires
            self.wf(),
            cell_in_bounds(self.grid_width(), self.grid_height(), x as int, y as int),
        ensures
            r == grid_index(self.grid_width(), x as int, y as int),
            r < self.grid().len(),
    {
        proof {
            assert((y as int) * (self.width as int) + (x as int) < (self.width as int) * (
            self.height as int) && (self.width as int) * (self.height as int) <= 0x4000_0000)
                by (nonlinear_arith)
                requires
                    0 <= (x as int) < (self.width as int),
                    0 <= (y as int) < (self.height as int),
                    self.width <= MAX_CANVAS_DIM,
                    self.height <= MAX_CANVAS_DIM,
            ;
        }
        (y as usize) * (self.width as usize) + (x as usize)
    }

    /// The matter identifier currently stored at the in-bounds cell `(x, y)`.
    pub fn matter_at(&self, x: i32, y: i32) -> (r: u32)
        requires
            self.wf(),
            cell_in_bounds(self.grid_width(), self.grid_height(), x as int, y as int),
        ensures
            r == self.grid()[grid_index(self.grid_width(), x as int, y as int)],
    {
        let idx = self.index(x, y);
        self.matter_in[idx]
    }

    /// The color image pixels, for rendering; row-major, one pixel per cell.
    pub fn color_image(&self) -> (r: &Vec<u32>)
        ensures
            r@ == self.image_seq(),
    {
        &self.image
    }

    /// Stamp a brush stroke into the current grid: for every point of the
    /// rasterized `line` that lies inside the canvas, write `matter` into
    /// every in-bounds cell whose rounded Euclidean distance from that point
    /// is at most `radius`. Out-of-bounds line points and out-of-bounds disc
    /// offsets are silently skipped; later writes may overwrite earlier ones,
    /// which is harmless since all writes of one call use the same matter id.
    #[verifier::loop_isolation(false)]
    pub fn draw_matter(&mut self, line: &Vec<(i32, i32)>, radius: u32, matter: u32)
        requires
            old(self).wf(),
            radius <= MAX_BRUSH_RADIUS,
        ensures
            final(self).wf(),
            final(self).grid_width() == old(self).grid_width(),
            final(self).grid_height() == old(self).grid_height(),
            final(self).scratch() == old(self).scratch(),
            final(self).image_seq() == old(self).image_seq(),
            final(self).grid() == stamped(
                old(self).grid(),
                old(self).grid_width(),
                old(self).grid_height(),
                line@,
                radius as int,
                matter,
            ),
    {
        let ghost w = old(self).grid_width();
        let ghost h = old(self).grid_height();
        let ghost g0 = old(self).grid();
        let ghost rad = radius as int;
        let r = radius as i32;
        let mut li: usize = 0;
        while li < line.len()
            invariant
                li <= line.len(),
                self.wf(),
                self.grid_width() == w,
                self.grid_height() == h,
                self.scratch() == old(self).scratch(),
                self.image_seq() == old(self).image_seq(),
                self.grid().len() == g0.len(),
                forall|cx: int, cy: int|
                    #![trigger grid_index(w, cx, cy)]
                    cell_in_bounds(w, h, cx, cy) ==> self.grid()[grid_index(w, cx, cy)] == (
                    if stroke_covers(line@.take(li as int), rad, w, h, cx, cy) {
                        matter
                    } else {
                        g0[grid_index(w, cx, cy)]
                    }),
            decreases line.len() - li,
        {
            let p = line[li];
            if self.is_inside(p.0, p.1) {
                let y1 = p.1 - r;
                let y2 = p.1 + r;
                let x1 = p.0 - r;
                let x2 = p.0 + r;
                proof {
                    assert forall|cx: int, cy: int|
                        disc_part(p, rad, w, h, cx, cy, y1 as int, x1 as int) implies false by {
                        lemma_disc_box(cx - p.0 as int, cy - p.1 as int, rad);
                    }
                }
                let mut y = y1;
                while y <= y2
                    invariant
                        y1 <= y <= y2 + 1,
                        self.wf(),
                        self.grid_width() == w,
                        self.grid_height() == h,
                        self.scratch() == old(self).scratch(),
                        self.image_seq() == old(self).image_seq(),
                        self.grid().len() == g0.len(),
                        forall|cx: int, cy: int|
                            #![trigger grid_index(w, cx, cy)]
                            cell_in_bounds(w, h, cx, cy) ==> self.grid()[grid_index(w, cx, cy)]
                                == (if stroke_covers(line@.take(li as int), rad, w, h, cx, cy)
                                || disc_part(p, rad, w, h, cx, cy, y as int, x1 as int) {
                                matter
                            } else {
                                g0[grid_index(w, cx, cy)]
                            }),
                    decreases y2 + 1 - y,
                {
                    let mut x = x1;
                    while x <= x2
                        invariant
                            x1 <= x <= x2 + 1,
                            y1 <= y <= y2,
                            self.wf(),
                            self.grid_width() == w,
                            self.grid_height() == h,
                            self.scratch() == old(self).scratch(),
                            self.image_seq() == old(self).image_seq(),
                            self.grid().len() == g0.len(),
                            forall|cx: int, cy: int|
                                #![trigger grid_index(w, cx, cy)]
                                cell_in_bounds(w, h, cx, cy) ==> self.grid()[grid_index(
                                    w,
                                    cx,
                                    cy,
                                )] == (if stroke_covers(line@.take(li as int), rad, w, h, cx, cy)
                                || disc_part(p, rad, w, h, cx, cy, y as int, x as int) {
                                    matter
                                } else {
                                    g0[grid_index(w, cx, cy)]
                                }),
                        decreases x2 + 1 - x,
                    {
                        let dx = (x - p.0) as i64;
                        let dy = (y - p.1) as i64;
                        proof {
                            lemma_square_bound(dx as int, MAX_BRUSH_RADIUS as int);
                            lemma_square_bound(dy as int, MAX_BRUSH_RADIUS as int);
                            lemma_square_bound(r as int, MAX_BRUSH_RADIUS as int);
                        }
                        if dx * dx + dy * dy <= (r as i64) * (r as i64) + (r as i64)
                            && self.is_inside(x, y) {
                            let idx = self.index(x, y);
                            self.matter_in[idx] = matter;
                            proof {
                                assert forall|cx: int, cy: int|
                                    #![trigger grid_index(w, cx, cy)]
                                    cell_in_bounds(w, h, cx, cy) implies self.grid()[grid_index(
                                    w,
                                    cx,
                                    cy,
                                )] == (if stroke_covers(line@.take(li as int), rad, w, h, cx, cy)
                                    || disc_part(p, rad, w, h, cx, cy, y as int, x as int + 1) {
                                    matter
                                } else {
                                    g0[grid_index(w, cx, cy)]
                                }) by {
                                    lemma_grid_index_bounds(w, h, cx, cy);
                                    lemma_grid_index_bounds(w, h, x as int, y as int);
                                    if cx == x as int && cy == y as int {
                                        assert(in_disc(cx - p.0 as int, cy - p.1 as int, rad));
                                        assert(disc_part(
                                            p,
                                            rad,
                                            w,
                                            h,
                                            cx,
                                            cy,
                                            y as int,
                                            x as int + 1,
                                        ));
                                    } else {
                                        if grid_index(w, cx, cy) == grid_index(
                                            w,
                                            x as int,
                                            y as int,
                                        ) {
                                            lemma_grid_index_injective(
                                                w,
                                                h,
                                                cx,
                                                cy,
                                                x as int,
                                                y as int,
                                            );
                                        }
                                    }
                                }
                            }
                        } else {
                            proof {
                                assert forall|cx: int, cy: int|
                                    #![trigger grid_index(w, cx, cy)]
                                    cell_in_bounds(w, h, cx, cy) implies self.grid()[grid_index(
                                    w,
                                    cx,
                                    cy,
                                )] == (if stroke_covers(line@.take(li as int), rad, w, h, cx, cy)
                                    || disc_part(p, rad, w, h, cx, cy, y as int, x as int + 1) {
                                    matter
                                } else {
                                    g0[grid_index(w, cx, cy)]
                                }) by {
                                    if cx == x as int && cy == y as int {
                                        assert(!in_disc(cx - p.0 as int, cy - p.1 as int, rad));
                                    }
                                }
                            }
                        }
                        x = x + 1;
                    }
                    proof {
                        assert forall|cx: int, cy: int|
                            #![trigger grid_index(w, cx, cy)]
                            cell_in_bounds(w, h, cx, cy) implies self.grid()[grid_index(w, cx, cy)]
                            == (if stroke_covers(line@.take(li as int), rad, w, h, cx, cy)
                            || disc_part(p, rad, w, h, cx, cy, y as int + 1, x1 as int) {
                            matter
                        } else {
                            g0[grid_index(w, cx, cy)]
                        }) by {
                            if point_covers(p, rad, w, h, cx, cy) {
                                lemma_disc_box(cx - p.0 as int, cy - p.1 as int, rad);
                            }
                        }
                    }
                    y = y + 1;
                }
                proof {
                    assert forall|cx: int, cy: int|
                        #![trigger grid_index(w, cx, cy)]
                        cell_in_bounds(w, h, cx, cy) implies self.grid()[grid_index(w, cx, cy)] == (
                    if stroke_covers(line@.take(li as int + 1), rad, w, h, cx, cy) {
                        matter
                    } else {
                        g0[grid_index(w, cx, cy)]
                    }) by {
                        lemma_stroke_covers_step(line@, li as int, rad, w, h, cx, cy);
                        if point_covers(p, rad, w, h, cx, cy) {
                            lemma_disc_box(cx - p.0 as int, cy - p.1 as int, rad);
                        }
                    }
                }
            } else {
                proof {
                    assert forall|cx: int, cy: int|
                        #![trigger grid_index(w, cx, cy)]
                        cell_in_bounds(w, h, cx, cy) implies self.grid()[grid_index(w, cx, cy)] == (
                    if stroke_covers(line@.take(li as int + 1), rad, w, h, cx, cy) {
                        matter
                    } else {
                        g0[grid_index(w, cx, cy)]
                    }) by {
                        lemma_stroke_covers_step(line@, li as int, rad, w, h, cx, cy);
                    }
                }
            }
            li = li + 1;
        }
        proof {
            assert(line@.take(line@.len() as int) =~= line@);
            let gfin = self.grid();
            let gstamp = stamped(g0, w, h, line@, rad, matter);
            assert forall|i: int| 0 <= i < gfin.len() implies gfin[i] == gstamp[i] by {
                lemma_cell_of_index(w, h, i);
                assert(gfin[grid_index(w, i % w, i / w)] == (if stroke_covers(
                    line@,
                    rad,
                    w,
                    h,
                    i % w,
                    i / w,
                ) {
                    matter
                } else {
                    g0[grid_index(w, i % w, i / w)]
                }));
            }
            assert(gfin =~= gstamp);
        }
    }

    /// Step the simulation: dispatch the colorization pass over the whole
    /// canvas, replacing the color image with the colorization of the current
    /// grid. The pass is a pure function of grid state and writes neither
    /// grid buffer, so repeated steps without intervening brush writes leave
    /// the image unchanged.
    #[verifier::loop_isolation(false)]
    pub fn step(&mut self)
        requires
            old(self).wf(),
        ensures
            final(self).wf(),
            final(self).grid_width() == old(self).grid_width(),
            final(self).grid_height() == old(self).grid_height(),
            final(self).grid() == old(self).grid(),
            final(self).scratch() == old(self).scratch(),
            final(self).image_seq() == colorize(old(self).grid()),
    {
        let n = self.image.len();
        let mut i: usize = 0;
        while i < n
            invariant
                i <= n,
                self.wf(),
                self.grid_width() == old(self).grid_width(),
                self.grid_height() == old(self).grid_height(),
                self.grid() == old(self).grid(),
                self.scratch() == old(self).scratch(),
                self.image_seq().len() == n,
                forall|j: int| 0 <= j < i ==> self.image_seq()[j] == color_of(old(self).grid()[j]),
            decreases n - i,
        {
            let v = self.matter_in[i];
            self.image[i] = v;
            i = i + 1;
        }
        proof {
            assert(self.image_seq() =~= colorize(old(self).grid()));
        }
    }
}

/// Which cells of the disc around stroke point `p` have been stamped so far:
/// every covered cell in a row before `y_done`, and the covered cells left of
/// `x_done` in row `y_done` itself.
spec fn disc_part(
    p: (i32, i32),
    r: int,
    w: int,
    h: int,
    x: int,
    y: int,
    y_done: int,
    x_done: int,
) -> bool {
    point_covers(p, r, w, h, x, y) && (y < y_done || (y == y_done && x < x_done))
}

/// Brush stamp law: a single-point stroke at `p` writes `matter` into
/// exactly those in-bounds cells whose rounded Euclidean distance from `p`
/// is at most `r` (provided `p` itself is on the canvas); every other cell
/// keeps its old value, and no cell outside the canvas exists to be written.
pub proof fn lemma_brush_stamp_disc(
    g: Seq<u32>,
    w: int,
    h: int,
    p: (i32, i32),
    r: int,
    matter: u32,
    x: int,
    y: int,
)
    requires
        w >= 1,
        g.len() == w * h,
        cell_in_bounds(w, h, x, y),
    ensures
        stamped(g, w, h, seq![p], r, matter)[grid_index(w, x, y)] == (if cell_in_bounds(
            w,
            h,
            p.0 as int,
            p.1 as int,
        ) && in_disc(x - p.0 as int, y - p.1 as int, r) {
            matter
        } else {
            g[grid_index(w, x, y)]
        }),
{
    let line = seq![p];
    let i = grid_index(w, x, y);
    assert(0 <= i < w * h) by (nonlinear_arith)
        requires
            0 <= x < w,
            0 <= y < h,
            i == y * w + x,
    ;
    lemma_cell_of_index(w, h, i);
    lemma_grid_index_injective(w, h, i % w, i / w, x, y);
    if point_covers(p, r, w, h, x, y) {
        assert(line[0] == p);
        assert(stroke_covers(line, r, w, h, x, y));
    }
    if stroke_covers(line, r, w, h, x, y) {
        let j = choose|j: int| 0 <= j < line.len() && point_covers(#[trigger] line[j], r, w, h, x, y);
        assert(line[j] == p);
    }
}

/// Step stability law: stepping twice with no intervening brush writes
/// produces the same color image both times, because the colorization pass
/// is a pure function of the (unchanged) grid.
pub proof fn lemma_repeated_step_stable(s0: CASimulator, s1: CASimulator, s2: CASimulator)
    requires
        s1.grid() == s0.grid(),
        s1.image_seq() == colorize(s0.grid()),
        s2.grid() == s1.grid(),
        s2.image_seq() == colorize(s1.grid()),
    ensures
        s2.image_seq() == s1.image_seq(),
{
}

/// Creates a zero-filled buffer with one slot per cell of a
/// `width x height` grid.
fn empty_grid(width: u32, height: u32) -> (r: Vec<u32>)
    requires
        width <= MAX_CANVAS_DIM,
        height <= MAX_CANVAS_DIM,
    ensures
        r@ == Seq::new((width * height) as nat, |i: int| 0u32),
{
    proof {
        assert((width as int) * (height as int) <= 0x4000_0000)
            by (nonlinear_arith)
            requires
                width <= MAX_CANVAS_DIM,
                height <= MAX_CANVAS_DIM,
        ;
    }
    let n: usize = (width as usize) * (height as usize);
    let mut v: Vec<u32> = Vec::new();
    let mut i: usize = 0;
    while i < n
        invariant
            i <= n,
            v@.len() == i,
            forall|j: int| 0 <= j < i ==> v@[j] == 0u32,
        decreases n - i,
    {
        v.push(0);
        i = i + 1;
    }
    proof {
        assert(v@ =~= Seq::new((width * height) as nat, |i: int| 0u32));
    }
    v
}

} // verus!
