//! Pointer positions and stroke-line rasterization.
//!
//! A pointer position lives in world coordinates as a pair of exact
//! rationals. Converting it to canvas space adds half the canvas size per
//! axis; a pointer-motion segment is then walked with Bresenham's line
//! algorithm (from the `line_drawing` crate) into the ordered sequence of
//! integer canvas coordinates that the brush stamps.

use vstd::prelude::*;

use crate::rat::{rat_add_spec, rat_new_spec, rat_round_spec, Rat};

verus! {

/// Largest coordinate magnitude accepted by the line walk, so the
/// rasterizer's internal delta and error arithmetic stays within `i32`.
pub const MAX_WALK_COORD: i64 = 0x1000_0000;

/// The ordered points of Bresenham's line walk from `start` to `end`,
/// inclusive of both endpoints. The walk is a pure function of the two
/// endpoints; its exact point sequence is left unspecified here.
pub uninterp spec fn bresenham_points(start: (i32, i32), end: (i32, i32)) -> Seq<(i32, i32)>;

/// Relies on `line_drawing::Bresenham`: iterating it yields the points of
/// the line from `start` to `end`, includes both endpoints, and starts at
/// `start`. The coordinate bound keeps the crate's internal octant and
/// error arithmetic within `i32`.
#[verifier::external_body]
fn bresenham_line(start: (i32, i32), end: (i32, i32)) -> (r: Vec<(i32, i32)>)
    requires
        -MAX_WALK_COORD <= start.0 as int <= MAX_WALK_COORD as int,
        -MAX_WALK_COORD <= start.1 as int <= MAX_WALK_COORD as int,
        -MAX_WALK_COORD <= end.0 as int <= MAX_WALK_COORD as int,
        -MAX_WALK_COORD <= end.1 as int <= MAX_WALK_COORD as int,
    ensures
        r@ == bresenham_points(start, end),
        r@.len() >= 1,
        r@[0] == start,
        r@[r@.len() - 1] == end,
{
    line_drawing::Bresenham::new(start, end).collect()
}

/// Mouse position in world coordinates.
#[derive(Debug, Clone, Copy, PartialEq, Eq, Structural)]
pub struct MousePos {
    /// World-space x coordinate.
    pub world_x: Rat,
    /// World-space y coordinate.
    pub world_y: Rat,
}

/// Canvas-space position of a world point: each axis is offset by half the
/// canvas size; `None` when an offset coordinate does not fit.
pub open spec fn canvas_pos_spec(wx: Rat, wy: Rat, canvas_w: u32, canvas_h: u32) -> Option<
    (Rat, Rat),
> {
    match rat_add_spec(wx, rat_new_spec(canvas_w as int, 2)) {
        Some(cx) => match rat_add_spec(wy, rat_new_spec(canvas_h as int, 2)) {
            Some(cy) => Some((cx, cy)),
            None => None,
        },
        None => None,
    }
}

impl MousePos {
    /// Both coordinates are well-formed rationals.
    pub open spec fn wf(self) -> bool {
        self.world_x.wf() && self.world_y.wf()
    }

    /// A mouse position at the given world coordinates.
    pub fn new(world_x: Rat, world_y: Rat) -> (r: MousePos)
        ensures
            r.world_x == world_x,
            r.world_y == world_y,
    {
        MousePos { world_x, world_y }
    }

    /// Converts world position to canvas position: adds half the canvas
    /// size to each axis (pixel units).
    pub fn canvas_pos(&self, canvas_w: u32, canvas_h: u32) -> (r: Option<(Rat, Rat)>)
        requires
            self.wf(),
        ensures
            r == canvas_pos_spec(self.world_x, self.world_y, canvas_w, canvas_h),
            r matches Some(c) ==> c.0.wf() && c.1.wf(),
    {
        let half_w = Rat::new(canvas_w as i64, 2);
        let half_h = Rat::new(canvas_h as i64, 2);
        match self.world_x.checked_add(half_w) {
            Some(cx) => match self.world_y.checked_add(half_h) {
                Some(cy) => Some((cx, cy)),
                None => None,
            },
            None => None,
        }
    }
}

/// Mouse position from last frame, if one was observed.
#[derive(Debug, Clone, Copy, PartialEq, Eq, Structural)]
pub struct PreviousMousePos(pub Option<MousePos>);

/// Mouse position now, if the pointer is over the window.
#[derive(Debug, Clone, Copy, PartialEq, Eq, Structural)]
pub struct CurrentMousePos(pub Option<MousePos>);

/// Does a rounded canvas coordinate lie within the range the line walk
/// accepts?
pub open spec fn walkable(v: int) -> bool {
    -MAX_WALK_COORD <= v <= MAX_WALK_COORD as int
}

/// The canvas line walked between the previous and current mouse position:
/// both positions are moved to canvas space, rounded to the nearest integer
/// cell, and connected by Bresenham's walk. A missing previous position
/// degenerates to the single current point. `None` when a coordinate
/// overflows canvas conversion or lies beyond the walkable range.
pub open spec fn canvas_line_spec(
    prev: Option<MousePos>,
    current: MousePos,
    canvas_w: u32,
    canvas_h: u32,
) -> Option<Seq<(i32, i32)>> {
    match canvas_pos_spec(current.world_x, current.world_y, canvas_w, canvas_h) {
        None => None,
        Some(cc) => {
            let pcs = match prev {
                Some(pm) => canvas_pos_spec(pm.world_x, pm.world_y, canvas_w, canvas_h),
                None => Some(cc),
            };
            match pcs {
                None => None,
                Some(pc) => {
                    let sx = rat_round_spec(pc.0);
                    let sy = rat_round_spec(pc.1);
                    let ex = rat_round_spec(cc.0);
                    let ey = rat_round_spec(cc.1);
                    if walkable(sx) && walkable(sy) && walkable(ex) && walkable(ey) {
                        Some(bresenham_points((sx as i32, sy as i32), (ex as i32, ey as i32)))
                    } else {
                        None
                    }
                },
            }
        },
    }
}

/// Gets the line of canvas coordinates between the previous and the current
/// mouse position, walking from the previous one to the current one.
pub fn get_canvas_line(
    prev: Option<MousePos>,
    current: MousePos,
    canvas_w: u32,
    canvas_h: u32,
) -> (r: Option<Vec<(i32, i32)>>)
    requires
        current.wf(),
        prev matches Some(p) ==> p.wf(),
    ensures
        r matches Some(v) ==> canvas_line_spec(prev, current, canvas_w, canvas_h) == Some(v@),
        r is None ==> canvas_line_spec(prev, current, canvas_w, canvas_h) is None,
{
    let cc = match current.canvas_pos(canvas_w, canvas_h) {
        Some(cc) => cc,
        None => {
            return None;
        },
    };
    let pc = match prev {
        Some(pm) => match pm.canvas_pos(canvas_w, canvas_h) {
            Some(pc) => pc,
            None => {
                return None;
            },
        },
        None => cc,
    };
    let sx = pc.0.round();
    let sy = pc.1.round();
    let ex = cc.0.round();
    let ey = cc.1.round();
    if -MAX_WALK_COORD <= sx && sx <= MAX_WALK_COORD && -MAX_WALK_COORD <= sy && sy
        <= MAX_WALK_COORD && -MAX_WALK_COORD <= ex && ex <= MAX_WALK_COORD && -MAX_WALK_COORD <= ey
        && ey <= MAX_WALK_COORD {
        Some(bresenham_line((sx as i32, sy as i32), (ex as i32, ey as i32)))
    } else {
        None
    }
}

} // verus!
