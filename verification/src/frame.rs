//! The frame compositor: clears the framebuffer, walks an ordered
//! primitive list, and dispatches each mesh triangle to the rasterizer in
//! painter's-algorithm order — later primitives always draw over earlier
//! ones within their clip rectangle; there is no depth buffer and no
//! sorting here.

use vstd::prelude::*;

use crate::color::Rgba;
use crate::raster::Vertex;
use crate::raster::fill_triangle;
use crate::raster::raster_result;
use crate::raster::vertex_wf;
use crate::texture::TexView;
use crate::texture::TextureCache;

verus! {

use vstd::arithmetic::div_mod::lemma_fundamental_div_mod;
use crate::raster::COORD_LIMIT;
use crate::raster::ceil_pixels;
use crate::raster::floor_pixels;

/// Largest accepted framebuffer edge, in pixels.
pub const MAX_FRAME_DIM: usize = 16384;

/// The pixel output of one frame: `width * height` RGBA pixels,
/// row-major, top-left origin, with an opaque alpha channel. It lives for
/// one frame: allocated and cleared by [`begin_frame`], read out by
/// [`end_frame`].
pub struct Framebuffer {
    pub width: usize,
    pub height: usize,
    pub pixels: Vec<Rgba>,
}

impl Framebuffer {
    /// Dimensions within machine limits and one pixel per grid cell.
    pub open spec fn wf(self) -> bool {
        &&& self.width <= MAX_FRAME_DIM
        &&& self.height <= MAX_FRAME_DIM
        &&& self.pixels@.len() == self.width * self.height
    }
}

/// An axis-aligned clip rectangle in fixed-point framebuffer coordinates
/// (256 subpixel units per pixel).
#[derive(Clone, Copy, PartialEq, Eq, Structural, Debug)]
pub struct ClipRect {
    pub min_x: i64,
    pub min_y: i64,
    pub max_x: i64,
    pub max_y: i64,
}

pub open spec fn clip_wf(c: ClipRect) -> bool {
    &&& -COORD_LIMIT <= c.min_x <= COORD_LIMIT
    &&& -COORD_LIMIT <= c.min_y <= COORD_LIMIT
    &&& -COORD_LIMIT <= c.max_x <= COORD_LIMIT
    &&& -COORD_LIMIT <= c.max_y <= COORD_LIMIT
}

/// A triangle mesh: vertices plus an index list consumed three at a time,
/// bound to one texture.
pub struct Mesh {
    pub texture_id: u64,
    pub vertices: Vec<Vertex>,
    pub indices: Vec<u32>,
}

pub open spec fn mesh_wf(m: Mesh) -> bool {
    &&& forall|k: int| 0 <= k < m.vertices@.len() ==> vertex_wf(#[trigger] m.vertices@[k])
    &&& forall|k: int|
        0 <= k < m.indices@.len() ==> (#[trigger] m.indices@[k] as int) < m.vertices@.len()
}

/// What a primitive draws: a mesh, or an externally injected paint
/// callback, which this software path recognizes but deliberately does
/// not execute.
pub enum Primitive {
    Mesh(Mesh),
    Callback,
}

/// A primitive together with its clip rectangle.
pub struct ClippedPrimitive {
    pub clip: ClipRect,
    pub prim: Primitive,
}

pub open spec fn prim_wf(p: ClippedPrimitive) -> bool {
    &&& clip_wf(p.clip)
    &&& match p.prim {
        Primitive::Mesh(m) => mesh_wf(m),
        Primitive::Callback => true,
    }
}

/// Left pixel column of a clip rectangle: clamped to the framebuffer,
/// then floored to whole pixels.
pub open spec fn clip_lo_x(c: ClipRect) -> int {
    let t = (c.min_x as int) / 256;
    if t > 0 {
        t
    } else {
        0
    }
}

pub open spec fn clip_lo_y(c: ClipRect) -> int {
    let t = (c.min_y as int) / 256;
    if t > 0 {
        t
    } else {
        0
    }
}

/// One past the right pixel column of a clip rectangle: clamped to the
/// framebuffer width, rounded up to whole pixels.
pub open spec fn clip_hi_x(c: ClipRect, fw: int) -> int {
    let t = (c.max_x as int + 255) / 256;
    if t < fw {
        t
    } else {
        fw
    }
}

pub open spec fn clip_hi_y(c: ClipRect, fh: int) -> int {
    let t = (c.max_y as int + 255) / 256;
    if t < fh {
        t
    } else {
        fh
    }
}

/// The framebuffer after the first `n` triangles of a mesh are drawn, in
/// index-list order.
pub open spec fn mesh_result(
    old: Seq<Rgba>,
    fw: int,
    tex: TexView,
    verts: Seq<Vertex>,
    idxs: Seq<u32>,
    cminx: int,
    cminy: int,
    cmaxx: int,
    cmaxy: int,
    n: int,
) -> Seq<Rgba>
    decreases n,
{
    if n <= 0 {
        old
    } else {
        raster_result(
            verts[idxs[3 * (n - 1)] as int],
            verts[idxs[3 * (n - 1) + 1] as int],
            verts[idxs[3 * (n - 1) + 2] as int],
            tex,
            cminx,
            cminy,
            cmaxx,
            cmaxy,
            fw,
            mesh_result(old, fw, tex, verts, idxs, cminx, cminy, cmaxx, cmaxy, n - 1),
        )
    }
}

/// The framebuffer after one clipped primitive is drawn. A callback
/// primitive draws nothing; a mesh whose texture is absent from the
/// cache, or has no texels to sample, is skipped entirely.
pub open spec fn prim_result(
    old: Seq<Rgba>,
    fw: int,
    fh: int,
    cache: Map<u64, TexView>,
    p: ClippedPrimitive,
) -> Seq<Rgba> {
    match p.prim {
        Primitive::Callback => old,
        Primitive::Mesh(m) => {
            if cache.dom().contains(m.texture_id) && cache[m.texture_id].width >= 1
                && cache[m.texture_id].height >= 1 {
                mesh_result(
                    old,
                    fw,
                    cache[m.texture_id],
                    m.vertices@,
                    m.indices@,
                    clip_lo_x(p.clip),
                    clip_lo_y(p.clip),
                    clip_hi_x(p.clip, fw),
                    clip_hi_y(p.clip, fh),
                    m.indices@.len() as int / 3,
                )
            } else {
                old
            }
        },
    }
}

/// The framebuffer after the first `n` primitives are drawn, in order.
pub open spec fn paint_result(
    old: Seq<Rgba>,
    fw: int,
    fh: int,
    cache: Map<u64, TexView>,
    prims: Seq<ClippedPrimitive>,
    n: int,
) -> Seq<Rgba>
    decreases n,
{
    if n <= 0 {
        old
    } else {
        prim_result(paint_result(old, fw, fh, cache, prims, n - 1), fw, fh, cache, prims[n - 1])
    }
}

/// One packed `0x00RRGGBB` pixel, as handed to the platform surface.
pub open spec fn packed_pixel(c: Rgba) -> int {
    65536 * (c.r as int) + 256 * (c.g as int) + (c.b as int)
}

/// Allocate a framebuffer and fill every pixel with `background`.
pub fn begin_frame(width: usize, height: usize, background: Rgba) -> (fb: Framebuffer)
    requires
        width <= MAX_FRAME_DIM,
        height <= MAX_FRAME_DIM,
    ensures
        fb.wf(),
        fb.width == width,
        fb.height == height,
        forall|p: int| 0 <= p < fb.pixels@.len() ==> fb.pixels@[p] == background,
{
    proof {
        assert(width * height <= 268435456) by (nonlinear_arith)
            requires
                width <= 16384,
                height <= 16384;
    }
    let n: usize = width * height;
    let mut pixels: Vec<Rgba> = Vec::new();
    for i in 0..n
        invariant
            pixels@.len() == i,
            forall|p: int| 0 <= p < i ==> pixels@[p] == background,
    {
        pixels.push(background);
    }
    Framebuffer { width, height, pixels }
}

/// Draw an ordered primitive list onto the framebuffer, strictly in the
/// given order (painter's algorithm), taking each mesh's texture from the
/// cache.
#[verifier::loop_isolation(false)]
pub fn paint(fb: &mut Framebuffer, cache: &TextureCache, prims: &Vec<ClippedPrimitive>)
    requires
        old(fb).wf(),
        cache.wf(),
        forall|j: int| 0 <= j < prims@.len() ==> prim_wf(#[trigger] prims@[j]),
    ensures
        final(fb).wf(),
        final(fb).width == old(fb).width,
        final(fb).height == old(fb).height,
        final(fb).pixels@ == paint_result(
            old(fb).pixels@,
            old(fb).width as int,
            old(fb).height as int,
            cache@,
            prims@,
            prims@.len() as int,
        ),
{
    let ghost fwi: int = fb.width as int;
    let ghost fhi: int = fb.height as int;
    let ghost old_pixels: Seq<Rgba> = fb.pixels@;
    let n = prims.len();
    for j in 0..n
        invariant
            fb.width == old(fb).width,
            fb.height == old(fb).height,
            fb.pixels@.len() == old_pixels.len(),
            fb.pixels@ == paint_result(old_pixels, fwi, fhi, cache@, prims@, j as int),
    {
        let prim = &prims[j];
        match &prim.prim {
            Primitive::Callback => {},
            Primitive::Mesh(m) => {
                match cache.get(m.texture_id) {
                    None => {},
                    Some(tex) => {
                        if tex.width >= 1 && tex.height >= 1 {
                            let t0 = floor_pixels(prim.clip.min_x);
                            let t1 = floor_pixels(prim.clip.min_y);
                            let t2 = ceil_pixels(prim.clip.max_x);
                            let t3 = ceil_pixels(prim.clip.max_y);
                            let cminx: i64 = if t0 > 0 {
                                t0
                            } else {
                                0
                            };
                            let cminy: i64 = if t1 > 0 {
                                t1
                            } else {
                                0
                            };
                            let fw64 = fb.width as i64;
                            let fh64 = fb.height as i64;
                            let cmaxx: i64 = if t2 < fw64 {
                                t2
                            } else {
                                fw64
                            };
                            let cmaxy: i64 = if t3 < fh64 {
                                t3
                            } else {
                                fh64
                            };
                            let ghost base: Seq<Rgba> = fb.pixels@;
                            let n_tris = m.indices.len() / 3;
                            proof {
                                lemma_fundamental_div_mod(m.indices@.len() as int, 3);
                            }
                            for t in 0..n_tris
                                invariant
                                    fb.width == old(fb).width,
                                    fb.height == old(fb).height,
                                    fb.pixels@.len() == old_pixels.len(),
                                    fb.pixels@ == mesh_result(
                                        base,
                                        fwi,
                                        tex@,
                                        m.vertices@,
                                        m.indices@,
                                        cminx as int,
                                        cminy as int,
                                        cmaxx as int,
                                        cmaxy as int,
                                        t as int,
                                    ),
                            {
                                let i0 = m.indices[3 * t] as usize;
                                let i1 = m.indices[3 * t + 1] as usize;
                                let i2 = m.indices[3 * t + 2] as usize;
                                let v0 = m.vertices[i0];
                                let v1 = m.vertices[i1];
                                let v2 = m.vertices[i2];
                                fill_triangle(fb, tex, v0, v1, v2, cminx, cminy, cmaxx, cmaxy);
                            }
                            proof {
                                assert(cminx as int == clip_lo_x(prim.clip));
                                assert(cminy as int == clip_lo_y(prim.clip));
                                assert(cmaxx as int == clip_hi_x(prim.clip, fwi));
                                assert(cmaxy as int == clip_hi_y(prim.clip, fhi));
                                assert(tex@ == cache@[m.texture_id]);
                                assert(fb.pixels@ == prim_result(base, fwi, fhi, cache@,
                                    prims@[j as int]));
                            }
                        }
                    },
                }
            },
        }
    }
}

/// Read the finished frame out as packed `0x00RRGGBB` pixels for the
/// platform surface.
pub fn end_frame(fb: &Framebuffer) -> (out: Vec<u32>)
    ensures
        out@.len() == fb.pixels@.len(),
        forall|p: int| 0 <= p < out@.len() ==> out@[p] as int == packed_pixel(fb.pixels@[p]),
{
    let n = fb.pixels.len();
    let mut out: Vec<u32> = Vec::new();
    for i in 0..n
        invariant
            n == fb.pixels@.len(),
            out@.len() == i,
            forall|p: int| 0 <= p < i ==> out@[p] as int == packed_pixel(fb.pixels@[p]),
    {
        let c = fb.pixels[i];
        out.push(c.r as u32 * 65536 + c.g as u32 * 256 + c.b as u32);
    }
    out
}

} // verus!
