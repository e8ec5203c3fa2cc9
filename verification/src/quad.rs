//! The textured unit quad and the per-draw data of the quad compositor.
//!
//! The compositor draws one image onto a quad centered at the origin that
//! spans `[-1/2, 1/2]` on both axes before transformation, so that scaling
//! by the image's pixel dimensions covers the image at 1:1 pixel density in
//! world units. Vertex positions, texture coordinates and colors are exact
//! rationals standing for the render pipeline's vertex attributes.

use vstd::prelude::*;

use crate::camera::{world_to_screen_spec, OrthographicCamera, WorldToScreen};
use crate::rat::{gcd_nat, lemma_rat_make_canonical, rat_mul_spec, rat_one, rat_zero, Rat};

verus! {

/// The rational one half, the quad's half extent per unit of size.
pub open spec fn rat_half() -> Rat {
    Rat { num: 1, den: 2 }
}

/// One half is a canonical rational.
proof fn lemma_half_wf()
    ensures
        rat_half().wf(),
{
    reveal_with_fuel(gcd_nat, 3);
}

/// Vertex for textured quads: a color, a 2-D position and a texture
/// coordinate per corner.
#[derive(Debug, Clone, Copy)]
pub struct TexturedVertex {
    /// Vertex color, as RGBA components.
    pub color: (Rat, Rat, Rat, Rat),
    /// Vertex position in the quad's local space.
    pub position: (Rat, Rat),
    /// Texture coordinate sampled at this vertex.
    pub tex_coords: (Rat, Rat),
}

/// Textured quad with vertices and indices.
pub struct TexturedQuad {
    /// The four corner vertices, counterclockwise from the bottom-left.
    pub vertices: Vec<TexturedVertex>,
    /// Two triangles over the four corners.
    pub indices: Vec<u32>,
}

/// A set of vertices and their indices, ready for drawing.
pub struct Mesh {
    /// Vertex buffer contents.
    pub vertices: Vec<TexturedVertex>,
    /// Index buffer contents.
    pub indices: Vec<u32>,
}

/// The index pattern of the quad's two triangles.
pub open spec fn quad_indices() -> Seq<u32> {
    seq![0u32, 2u32, 1u32, 0u32, 3u32, 2u32]
}

impl TexturedQuad {
    /// Creates a new textured quad of the given width and height centered at
    /// the origin: corners at `(+-width/2, +-height/2)`, texture coordinates
    /// covering the unit square, and the given color at every vertex.
    /// `None` exactly when a half extent does not fit the rational
    /// representation.
    pub fn new(width: Rat, height: Rat, color: (Rat, Rat, Rat, Rat)) -> (r: Option<TexturedQuad>)
        requires
            width.wf(),
            height.wf(),
        ensures
            r is Some <==> (rat_mul_spec(width, rat_half()) is Some && rat_mul_spec(
                height,
                rat_half(),
            ) is Some),
            r matches Some(q) ==> {
                let hw = rat_mul_spec(width, rat_half())->Some_0;
                let hh = rat_mul_spec(height, rat_half())->Some_0;
                &&& q.vertices@.len() == 4
                &&& q.vertices@[0] == (TexturedVertex {
                    position: (Rat { num: (-hw.num) as i64, den: hw.den }, Rat { num: (-hh.num) as i64, den: hh.den }),
                    tex_coords: (rat_zero(), rat_one()),
                    color,
                })
                &&& q.vertices@[1] == (TexturedVertex {
                    position: (Rat { num: (-hw.num) as i64, den: hw.den }, hh),
                    tex_coords: (rat_zero(), rat_zero()),
                    color,
                })
                &&& q.vertices@[2] == (TexturedVertex {
                    position: (hw, hh),
                    tex_coords: (rat_one(), rat_zero()),
                    color,
                })
                &&& q.vertices@[3] == (TexturedVertex {
                    position: (hw, Rat { num: (-hh.num) as i64, den: hh.den }),
                    tex_coords: (rat_one(), rat_one()),
                    color,
                })
                &&& q.indices@ == quad_indices()
            },
    {
        proof {
            lemma_half_wf();
        }
        let half = Rat { num: 1, den: 2 };
        let hw = match width.checked_mul(half) {
            Some(hw) => hw,
            None => {
                return None;
            },
        };
        let hh = match height.checked_mul(half) {
            Some(hh) => hh,
            None => {
                return None;
            },
        };
        let zero = Rat::zero();
        let one = Rat::from_int(1);
        let mut vertices: Vec<TexturedVertex> = Vec::new();
        vertices.push(
            TexturedVertex { position: (hw.neg(), hh.neg()), tex_coords: (zero, one), color },
        );
        vertices.push(
            TexturedVertex { position: (hw.neg(), hh), tex_coords: (zero, zero), color },
        );
        vertices.push(TexturedVertex { position: (hw, hh), tex_coords: (one, zero), color });
        vertices.push(TexturedVertex { position: (hw, hh.neg()), tex_coords: (one, one), color });
        let mut indices: Vec<u32> = Vec::new();
        indices.push(0);
        indices.push(2);
        indices.push(1);
        indices.push(0);
        indices.push(3);
        indices.push(2);
        proof {
            assert(indices@ =~= quad_indices());
        }
        Some(TexturedQuad { vertices, indices })
    }

    /// Converts the quad data to a mesh that can be used in drawing.
    pub fn to_mesh(self) -> (r: Mesh)
        ensures
            r.vertices@ == self.vertices@,
            r.indices@ == self.indices@,
    {
        Mesh { vertices: self.vertices, indices: self.indices }
    }
}

/// Per-draw data handed to the quad pipeline: the camera's world-to-screen
/// transform and the scale that blows the unit quad up to the image's pixel
/// size, negated per axis when the image is flipped.
#[derive(Debug, Clone, Copy, PartialEq, Eq, Structural)]
pub struct QuadPushConstants {
    /// World-to-screen transform of the camera at draw time.
    pub world_to_screen: WorldToScreen,
    /// Horizontal scale: the image width in pixels, negated when flipped.
    pub scale_x: i64,
    /// Vertical scale: the image height in pixels, negated when flipped.
    pub scale_y: i64,
}

/// The all-white vertex color of the shared quad.
pub open spec fn white_color() -> (Rat, Rat, Rat, Rat) {
    (rat_one(), rat_one(), rat_one(), rat_one())
}

/// One quad draw, ready to merge into a frame's command stream: the
/// viewport it targets, the per-draw push data, and the indexed draw size.
#[derive(Debug, Clone, Copy, PartialEq, Eq, Structural)]
pub struct QuadDrawCall {
    /// Viewport width in pixels.
    pub viewport_w: u32,
    /// Viewport height in pixels.
    pub viewport_h: u32,
    /// Transform and scale handed to the quad shaders.
    pub push: QuadPushConstants,
    /// Number of indices drawn: the quad's two triangles.
    pub index_count: u32,
}

/// Pipeline to draw pixel perfect images on quads: it owns the shared unit
/// quad mesh and turns a camera and an image's dimensions into the data of
/// one quad draw.
pub struct DrawQuadPipeline {
    /// The shared white unit quad, bound to every draw.
    pub quad: Mesh,
}

impl DrawQuadPipeline {
    /// A quad pipeline over the shared white unit quad, whose corners span
    /// `[-1/2, 1/2]` on both axes.
    pub fn new() -> (r: DrawQuadPipeline)
        ensures
            r.quad.indices@ == quad_indices(),
            r.quad.vertices@.len() == 4,
            r.quad.vertices@[0].position == (
                Rat { num: -1i64, den: 2 },
                Rat { num: -1i64, den: 2 },
            ),
            r.quad.vertices@[1].position == (Rat { num: -1i64, den: 2 }, rat_half()),
            r.quad.vertices@[2].position == (rat_half(), rat_half()),
            r.quad.vertices@[3].position == (rat_half(), Rat { num: -1i64, den: 2 }),
            forall|i: int| 0 <= i < 4 ==> (#[trigger] r.quad.vertices@[i]).color == white_color(),
    {
        proof {
            lemma_half_wf();
            lemma_rat_make_canonical(rat_half());
        }
        let one = Rat::from_int(1);
        let white = (one, one, one, one);
        let quad = match TexturedQuad::new(one, one, white) {
            Some(q) => q,
            None => unreached(),
        };
        DrawQuadPipeline { quad: quad.to_mesh() }
    }

    /// The draw of `image` onto the quad for this frame: the camera's
    /// world-to-screen transform with the image's pixel size as quad scale,
    /// an indexed draw of the two triangles over the given viewport.
    /// `None` exactly when the camera transform does not fit the rational
    /// representation.
    pub fn draw(
        &self,
        viewport_w: u32,
        viewport_h: u32,
        camera: &OrthographicCamera,
        image_w: u32,
        image_h: u32,
        flip_x: bool,
        flip_y: bool,
    ) -> (r: Option<QuadDrawCall>)
        requires
            camera.wf(),
        ensures
            r is Some <==> world_to_screen_spec(*camera) is Some,
            r matches Some(c) ==> {
                &&& Some(c.push.world_to_screen) == world_to_screen_spec(*camera)
                &&& c.push.scale_x == if flip_x {
                    -(image_w as int)
                } else {
                    image_w as int
                }
                &&& c.push.scale_y == if flip_y {
                    -(image_h as int)
                } else {
                    image_h as int
                }
                &&& c.viewport_w == viewport_w
                &&& c.viewport_h == viewport_h
                &&& c.index_count == 6
            },
    {
        match camera.world_to_screen() {
            Some(t) => Some(
                QuadDrawCall {
                    viewport_w,
                    viewport_h,
                    push: quad_push_constants(t, image_w, image_h, flip_x, flip_y),
                    index_count: 6,
                },
            ),
            None => None,
        }
    }
}

/// The push data for drawing an image of the given pixel dimensions with
/// the given camera transform and flip flags.
pub fn quad_push_constants(
    transform: WorldToScreen,
    image_w: u32,
    image_h: u32,
    flip_x: bool,
    flip_y: bool,
) -> (r: QuadPushConstants)
    ensures
        r.world_to_screen == transform,
        r.scale_x == if flip_x {
            -(image_w as int)
        } else {
            image_w as int
        },
        r.scale_y == if flip_y {
            -(image_h as int)
        } else {
            image_h as int
        },
{
    let sx: i64 = if flip_x {
        -(image_w as i64)
    } else {
        image_w as i64
    };
    let sy: i64 = if flip_y {
        -(image_h as i64)
    } else {
        image_h as i64
    };
    QuadPushConstants { world_to_screen: transform, scale_x: sx, scale_y: sy }
}

} // verus!
