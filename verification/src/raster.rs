//! The triangle rasterizer: fills one textured, vertex-colored triangle
//! into the framebuffer, clipped to a rectangle.
//!
//! Geometry is fixed-point: positions and UV coordinates carry 256
//! subpixel units per pixel (one UV unit, the nominal texture extent, is
//! 256 units). A pixel is covered when all three edge functions evaluated
//! at its center are non-negative; triangles of the opposite winding give
//! a negative edge somewhere at every pixel center and are rejected
//! pixel by pixel, and a triangle with exactly zero signed area is
//! dropped without touching any pixel.

use vstd::prelude::*;

use crate::color::Rgba;
use crate::color::blend_channel;
use crate::color::composite_over;
use crate::color::modulate;
use crate::color::lemma_div255_exact;
use crate::color::modulate_channel;
use crate::frame::Framebuffer;
use crate::texture::TexView;
use crate::texture::Texture;

verus! {

use vstd::arithmetic::div_mod::lemma_div_is_ordered;
use vstd::arithmetic::div_mod::lemma_div_multiples_vanish;
use vstd::arithmetic::div_mod::lemma_div_pos_is_pos;
use vstd::arithmetic::div_mod::lemma_fundamental_div_mod;
use vstd::arithmetic::div_mod::lemma_fundamental_div_mod_converse_div;
use vstd::pervasive::VecAdditionalExecFns;
use crate::texture::lemma_grid_index;
use crate::texture::lemma_grid_recompose;

/// Subpixel units per pixel (and per nominal UV unit).
pub const SUBPIXELS: i64 = 256;

/// Largest magnitude accepted for a fixed-point position or UV
/// coordinate: 32768 pixels, in subpixel units.
pub const COORD_LIMIT: i64 = 8388608;

/// One triangle corner: fixed-point position and UV, and an RGBA color.
#[derive(Clone, Copy, PartialEq, Eq, Structural, Debug)]
pub struct Vertex {
    pub x: i64,
    pub y: i64,
    pub u: i64,
    pub v: i64,
    pub color: Rgba,
}

/// All four fixed-point coordinates within range.
pub open spec fn vertex_wf(v: Vertex) -> bool {
    &&& -COORD_LIMIT <= v.x <= COORD_LIMIT
    &&& -COORD_LIMIT <= v.y <= COORD_LIMIT
    &&& -COORD_LIMIT <= v.u <= COORD_LIMIT
    &&& -COORD_LIMIT <= v.v <= COORD_LIMIT
}

/// The 2D edge function: positive when `(px, py)` lies to the side of the
/// directed line `a -> b` that the accepted winding faces.
pub open spec fn edge_fn(ax: int, ay: int, bx: int, by: int, px: int, py: int) -> int {
    (py - ay) * (bx - ax) - (px - ax) * (by - ay)
}

/// Twice the signed area of the triangle, in subpixel units.
pub open spec fn tri_area(v0: Vertex, v1: Vertex, v2: Vertex) -> int {
    edge_fn(v0.x as int, v0.y as int, v1.x as int, v1.y as int, v2.x as int, v2.y as int)
}

/// The subpixel coordinate of the center of pixel `c`.
pub open spec fn pixel_center(c: int) -> int {
    256 * c + 128
}

/// Barycentric weight of `v0` at the center of pixel `(x, y)` (scaled by
/// the area).
pub open spec fn w0_at(v0: Vertex, v1: Vertex, v2: Vertex, x: int, y: int) -> int {
    edge_fn(
        v1.x as int,
        v1.y as int,
        v2.x as int,
        v2.y as int,
        pixel_center(x),
        pixel_center(y),
    )
}

/// Barycentric weight of `v1`, scaled by the area.
pub open spec fn w1_at(v0: Vertex, v1: Vertex, v2: Vertex, x: int, y: int) -> int {
    edge_fn(
        v2.x as int,
        v2.y as int,
        v0.x as int,
        v0.y as int,
        pixel_center(x),
        pixel_center(y),
    )
}

/// Barycentric weight of `v2`: the remainder, so the three weights sum to
/// the area exactly.
pub open spec fn w2_at(v0: Vertex, v1: Vertex, v2: Vertex, x: int, y: int) -> int {
    tri_area(v0, v1, v2) - w0_at(v0, v1, v2, x, y) - w1_at(v0, v1, v2, x, y)
}

/// A pixel center is covered when the triangle is not degenerate and all
/// three scaled weights are non-negative.
pub open spec fn covered_at(v0: Vertex, v1: Vertex, v2: Vertex, x: int, y: int) -> bool {
    &&& tri_area(v0, v1, v2) != 0
    &&& w0_at(v0, v1, v2, x, y) >= 0
    &&& w1_at(v0, v1, v2, x, y) >= 0
    &&& w2_at(v0, v1, v2, x, y) >= 0
}

pub open spec fn int_min3(a: int, b: int, c: int) -> int {
    if a <= b && a <= c {
        a
    } else if b <= c {
        b
    } else {
        c
    }
}

pub open spec fn int_max3(a: int, b: int, c: int) -> int {
    if a >= b && a >= c {
        a
    } else if b >= c {
        b
    } else {
        c
    }
}

/// Left edge of the pixel rows the triangle may touch: the floor of the
/// least vertex x, clamped by the clip rectangle.
pub open spec fn bbox_min_x(v0: Vertex, v1: Vertex, v2: Vertex, clip_min_x: int) -> int {
    let t = int_min3(v0.x as int, v1.x as int, v2.x as int) / 256;
    if t > clip_min_x {
        t
    } else {
        clip_min_x
    }
}

pub open spec fn bbox_min_y(v0: Vertex, v1: Vertex, v2: Vertex, clip_min_y: int) -> int {
    let t = int_min3(v0.y as int, v1.y as int, v2.y as int) / 256;
    if t > clip_min_y {
        t
    } else {
        clip_min_y
    }
}

/// One past the right edge: the ceiling of the greatest vertex x, clamped
/// by the clip rectangle.
pub open spec fn bbox_max_x(v0: Vertex, v1: Vertex, v2: Vertex, clip_max_x: int) -> int {
    let t = (int_max3(v0.x as int, v1.x as int, v2.x as int) + 255) / 256;
    if t < clip_max_x {
        t
    } else {
        clip_max_x
    }
}

pub open spec fn bbox_max_y(v0: Vertex, v1: Vertex, v2: Vertex, clip_max_y: int) -> int {
    let t = (int_max3(v0.y as int, v1.y as int, v2.y as int) + 255) / 256;
    if t < clip_max_y {
        t
    } else {
        clip_max_y
    }
}

/// Interpolated UV numerator (u axis), scaled by `area * 256`.
pub open spec fn uv_num_u(v0: Vertex, v1: Vertex, v2: Vertex, x: int, y: int) -> int {
    w0_at(v0, v1, v2, x, y) * v0.u + w1_at(v0, v1, v2, x, y) * v1.u + w2_at(v0, v1, v2, x, y)
        * v2.u
}

/// Interpolated UV numerator (v axis), scaled by `area * 256`.
pub open spec fn uv_num_v(v0: Vertex, v1: Vertex, v2: Vertex, x: int, y: int) -> int {
    w0_at(v0, v1, v2, x, y) * v0.v + w1_at(v0, v1, v2, x, y) * v1.v + w2_at(v0, v1, v2, x, y)
        * v2.v
}

/// Nearest-neighbor texel coordinate with clamp addressing: the floor of
/// `num/denom` scaled to `dim` texels, clamped to `0..dim`.
pub open spec fn sample_tex_coord(num: int, dim: int, denom: int) -> int {
    if num <= 0 {
        0
    } else {
        let t = (num * dim) / denom;
        if t > dim - 1 {
            dim - 1
        } else {
            t
        }
    }
}

/// The texel the triangle samples at pixel `(x, y)`.
pub open spec fn sampled_texel(v0: Vertex, v1: Vertex, v2: Vertex, tex: TexView, x: int, y: int) -> Rgba {
    let a = tri_area(v0, v1, v2);
    let tx = sample_tex_coord(uv_num_u(v0, v1, v2, x, y), tex.width, a * 256);
    let ty = sample_tex_coord(uv_num_v(v0, v1, v2, x, y), tex.height, a * 256);
    tex.pixels[ty * tex.width + tx]
}

/// Barycentric interpolation of one color channel, as a floor division by
/// the area.
pub open spec fn interp_channel_at(
    v0: Vertex,
    v1: Vertex,
    v2: Vertex,
    x: int,
    y: int,
    c0: int,
    c1: int,
    c2: int,
) -> int {
    (w0_at(v0, v1, v2, x, y) * c0 + w1_at(v0, v1, v2, x, y) * c1 + w2_at(v0, v1, v2, x, y) * c2)
        / tri_area(v0, v1, v2)
}

/// The interpolated vertex color at pixel `(x, y)`.
pub open spec fn interp_color_at(v0: Vertex, v1: Vertex, v2: Vertex, x: int, y: int) -> Rgba {
    Rgba {
        r: interp_channel_at(v0, v1, v2, x, y, v0.color.r as int, v1.color.r as int, v2.color.r as int) as u8,
        g: interp_channel_at(v0, v1, v2, x, y, v0.color.g as int, v1.color.g as int, v2.color.g as int) as u8,
        b: interp_channel_at(v0, v1, v2, x, y, v0.color.b as int, v1.color.b as int, v2.color.b as int) as u8,
        a: interp_channel_at(v0, v1, v2, x, y, v0.color.a as int, v1.color.a as int, v2.color.a as int) as u8,
    }
}

/// A covered pixel after the write: the sampled texel modulated by the
/// interpolated vertex color, composited over `dst`, with the
/// framebuffer's alpha forced to fully opaque.
pub open spec fn shaded_pixel(
    v0: Vertex,
    v1: Vertex,
    v2: Vertex,
    tex: TexView,
    x: int,
    y: int,
    dst: Rgba,
) -> Rgba {
    let t = sampled_texel(v0, v1, v2, tex, x, y);
    let vc = interp_color_at(v0, v1, v2, x, y);
    let sr = modulate_channel(t.r as int, vc.r as int);
    let sg = modulate_channel(t.g as int, vc.g as int);
    let sb = modulate_channel(t.b as int, vc.b as int);
    let sa = modulate_channel(t.a as int, vc.a as int);
    Rgba {
        r: blend_channel(sr, sa, dst.r as int) as u8,
        g: blend_channel(sg, sa, dst.g as int) as u8,
        b: blend_channel(sb, sa, dst.b as int) as u8,
        a: 255,
    }
}

/// Pixel `p` (row-major in a framebuffer of width `fw`) after the
/// triangle is drawn: shaded when inside the clamped bounding box and
/// covered, untouched otherwise.
pub open spec fn raster_pixel(
    v0: Vertex,
    v1: Vertex,
    v2: Vertex,
    tex: TexView,
    cminx: int,
    cminy: int,
    cmaxx: int,
    cmaxy: int,
    fw: int,
    old: Seq<Rgba>,
    p: int,
) -> Rgba {
    let y = p / fw;
    let x = p % fw;
    if bbox_min_x(v0, v1, v2, cminx) <= x < bbox_max_x(v0, v1, v2, cmaxx) && bbox_min_y(
        v0,
        v1,
        v2,
        cminy,
    ) <= y < bbox_max_y(v0, v1, v2, cmaxy) && covered_at(v0, v1, v2, x, y) {
        shaded_pixel(v0, v1, v2, tex, x, y, old[p])
    } else {
        old[p]
    }
}

/// The whole framebuffer after the triangle is drawn.
pub open spec fn raster_result(
    v0: Vertex,
    v1: Vertex,
    v2: Vertex,
    tex: TexView,
    cminx: int,
    cminy: int,
    cmaxx: int,
    cmaxy: int,
    fw: int,
    old: Seq<Rgba>,
) -> Seq<Rgba> {
    Seq::new(
        old.len(),
        |p: int| raster_pixel(v0, v1, v2, tex, cminx, cminy, cmaxx, cmaxy, fw, old, p),
    )
}

/// Whether pixel `p` has already been visited when the row-major fill has
/// reached row `y`, column `x`, inside the box `[bminx, bmaxx)`.
pub open spec fn raster_visited(
    fw: int,
    bminx: int,
    bmaxx: int,
    bminy: int,
    p: int,
    y: int,
    x: int,
) -> bool {
    let py = p / fw;
    let px = p % fw;
    &&& bminx <= px < bmaxx
    &&& bminy <= py
    &&& {
        ||| py < y
        ||| (py == y && px < x)
    }
}

/// Floor of a fixed-point coordinate, in whole pixels.
pub fn floor_pixels(a: i64) -> (r: i64)
    requires
        -16777216 <= a <= 16777216,
    ensures
        r as int == (a as int) / 256,
{
    let s: u64 = (a + 16777216) as u64;
    let q: i64 = (s / 256) as i64 - 65536;
    proof {
        lemma_fundamental_div_mod(a as int, 256);
        lemma_fundamental_div_mod_converse_div(
            a as int + 16777216,
            256,
            (a as int) / 256 + 65536,
            (a as int) % 256,
        );
    }
    q
}

/// Ceiling of a fixed-point coordinate, in whole pixels.
pub fn ceil_pixels(a: i64) -> (r: i64)
    requires
        -16777216 <= a <= 16777216,
    ensures
        r as int == (a as int + 255) / 256,
{
    let s: u64 = (a + 255 + 16777216) as u64;
    let q: i64 = (s / 256) as i64 - 65536;
    proof {
        lemma_fundamental_div_mod(a as int + 255, 256);
        lemma_fundamental_div_mod_converse_div(
            a as int + 255 + 16777216,
            256,
            (a as int + 255) / 256 + 65536,
            (a as int + 255) % 256,
        );
    }
    q
}

fn min3_i64(a: i64, b: i64, c: i64) -> (r: i64)
    ensures
        r as int == int_min3(a as int, b as int, c as int),
{
    if a <= b && a <= c {
        a
    } else if b <= c {
        b
    } else {
        c
    }
}

fn max3_i64(a: i64, b: i64, c: i64) -> (r: i64)
    ensures
        r as int == int_max3(a as int, b as int, c as int),
{
    if a >= b && a >= c {
        a
    } else if b >= c {
        b
    } else {
        c
    }
}

/// The edge function on fixed-point inputs of bounded magnitude.
fn edge_exec(ax: i64, ay: i64, bx: i64, by: i64, px: i64, py: i64) -> (r: i64)
    requires
        -8388608 <= ax <= 8388608,
        -8388608 <= ay <= 8388608,
        -8388608 <= bx <= 8388608,
        -8388608 <= by <= 8388608,
        -8388608 <= px <= 8388608,
        -8388608 <= py <= 8388608,
    ensures
        r as int == edge_fn(ax as int, ay as int, bx as int, by as int, px as int, py as int),
        -562949953421312 <= r <= 562949953421312,
{
    proof {
        assert((py as int - ay as int) * (bx as int - ax as int) <= 281474976710656
            && (py as int - ay as int) * (bx as int - ax as int) >= -281474976710656)
            by (nonlinear_arith)
            requires
                -16777216 <= py as int - ay as int <= 16777216,
                -16777216 <= bx as int - ax as int <= 16777216;
        assert((px as int - ax as int) * (by as int - ay as int) <= 281474976710656
            && (px as int - ax as int) * (by as int - ay as int) >= -281474976710656)
            by (nonlinear_arith)
            requires
                -16777216 <= px as int - ax as int <= 16777216,
                -16777216 <= by as int - ay as int <= 16777216;
    }
    (py - ay) * (bx - ax) - (px - ax) * (by - ay)
}

/// Barycentric interpolation of one 8-bit channel.
fn interp_channel_exec(a: i64, e0: i64, c0: u8, e1: i64, c1: u8, e2: i64, c2: u8) -> (r: u8)
    requires
        0 < a <= 1688849860263936,
        0 <= e0,
        0 <= e1,
        0 <= e2,
        e0 + e1 + e2 == a,
    ensures
        r as int == (e0 as int * c0 as int + e1 as int * c1 as int + e2 as int * c2 as int) / (
        a as int),
{
    proof {
        assert(e0 as int * c0 as int + e1 as int * c1 as int + e2 as int * c2 as int <= a as int
            * 255 && 0 <= e0 as int * c0 as int + e1 as int * c1 as int + e2 as int * c2 as int)
            by (nonlinear_arith)
            requires
                0 <= e0 as int,
                0 <= e1 as int,
                0 <= e2 as int,
                e0 as int + e1 as int + e2 as int == a as int,
                0 <= c0 as int <= 255,
                0 <= c1 as int <= 255,
                0 <= c2 as int <= 255;
        assert(a as int * 255 <= 1688849860263936 * 255) by (nonlinear_arith)
            requires
                0 < a as int <= 1688849860263936;
    }
    let num: i64 = e0 * c0 as i64 + e1 * c1 as i64 + e2 * c2 as i64;
    let q: u64 = num as u64 / a as u64;
    proof {
        lemma_div_is_ordered(num as int, a as int * 255, a as int);
        lemma_div_multiples_vanish(255, a as int);
        assert(a as int * 255 == 255 * a as int) by (nonlinear_arith);
        lemma_div_is_ordered(0, num as int, a as int);
    }
    q as u8
}

/// Nearest-neighbor texel coordinate for one axis, with clamp addressing.
fn sample_coord_exec(e0: i64, u0: i64, e1: i64, u1: i64, e2: i64, u2: i64, a: i64, dim: usize) -> (r:
    usize)
    requires
        0 < a <= 1688849860263936,
        0 <= e0 <= a,
        0 <= e1 <= a,
        0 <= e2 <= a,
        -8388608 <= u0 <= 8388608,
        -8388608 <= u1 <= 8388608,
        -8388608 <= u2 <= 8388608,
        1 <= dim <= 65536,
    ensures
        r < dim,
        r as int == sample_tex_coord(
            e0 as int * u0 as int + e1 as int * u1 as int + e2 as int * u2 as int,
            dim as int,
            a as int * 256,
        ),
{
    proof {
        assert(e0 as int * u0 as int <= 1688849860263936 * 8388608 && e0 as int * u0 as int
            >= -1688849860263936 * 8388608) by (nonlinear_arith)
            requires
                0 <= e0 as int <= 1688849860263936,
                -8388608 <= u0 as int <= 8388608;
        assert(e1 as int * u1 as int <= 1688849860263936 * 8388608 && e1 as int * u1 as int
            >= -1688849860263936 * 8388608) by (nonlinear_arith)
            requires
                0 <= e1 as int <= 1688849860263936,
                -8388608 <= u1 as int <= 8388608;
        assert(e2 as int * u2 as int <= 1688849860263936 * 8388608 && e2 as int * u2 as int
            >= -1688849860263936 * 8388608) by (nonlinear_arith)
            requires
                0 <= e2 as int <= 1688849860263936,
                -8388608 <= u2 as int <= 8388608;
    }
    let num: i128 = e0 as i128 * u0 as i128 + e1 as i128 * u1 as i128 + e2 as i128 * u2 as i128;
    if num <= 0 {
        0
    } else {
        proof {
            assert(num as int * dim as int <= num as int * 65536 && num as int * dim as int >= 0)
                by (nonlinear_arith)
                requires
                    0 < num as int,
                    1 <= dim as int <= 65536;
        }
        let nd: i128 = num * dim as i128;
        let den: i128 = a as i128 * 256;
        let q: u128 = nd as u128 / den as u128;
        proof {
            lemma_div_is_ordered(0, nd as int, den as int);
        }
        if q >= dim as u128 {
            dim - 1
        } else {
            proof {
                assert(q as int == (num as int * dim as int) / (a as int * 256));
            }
            q as usize
        }
    }
}

/// Reversing the vertex order negates the signed area.
pub proof fn lemma_reversed_winding_area(v0: Vertex, v1: Vertex, v2: Vertex)
    ensures
        tri_area(v2, v1, v0) == -tri_area(v0, v1, v2),
{
    assert(edge_fn(
        v2.x as int,
        v2.y as int,
        v1.x as int,
        v1.y as int,
        v0.x as int,
        v0.y as int,
    ) == -edge_fn(v0.x as int, v0.y as int, v1.x as int, v1.y as int, v2.x as int, v2.y as int))
        by (nonlinear_arith);
}

/// A triangle of the opposite winding — negative signed area — covers no
/// pixel center at all: its weights cannot all be non-negative.
pub proof fn lemma_negative_area_covers_nothing(
    v0: Vertex,
    v1: Vertex,
    v2: Vertex,
    x: int,
    y: int,
)
    requires
        tri_area(v0, v1, v2) < 0,
    ensures
        !covered_at(v0, v1, v2, x, y),
{
}

/// A triangle whose three vertices share one fully opaque color, sampling
/// a single-texel opaque white texture, shades every covered pixel with
/// exactly that color (and an opaque alpha), whatever was underneath.
pub proof fn lemma_uniform_shade(
    v0: Vertex,
    v1: Vertex,
    v2: Vertex,
    tex: TexView,
    x: int,
    y: int,
    dst: Rgba,
    c: Rgba,
)
    requires
        covered_at(v0, v1, v2, x, y),
        v0.color == c,
        v1.color == c,
        v2.color == c,
        c.a == 255,
        tex.width == 1,
        tex.height == 1,
        tex.pixels.len() == 1,
        tex.pixels[0] == (Rgba { r: 255, g: 255, b: 255, a: 255 }),
    ensures
        shaded_pixel(v0, v1, v2, tex, x, y, dst) == (Rgba { r: c.r, g: c.g, b: c.b, a: 255 }),
{
    let a = tri_area(v0, v1, v2);
    let e0 = w0_at(v0, v1, v2, x, y);
    let e1 = w1_at(v0, v1, v2, x, y);
    let e2 = w2_at(v0, v1, v2, x, y);
    assert(a > 0);
    let nu = uv_num_u(v0, v1, v2, x, y);
    let nv = uv_num_v(v0, v1, v2, x, y);
    assert(sample_tex_coord(nu, 1, a * 256) == 0) by {
        if nu > 0 {
            assert(nu * 1 == nu);
            lemma_div_pos_is_pos(nu, a * 256);
        }
    }
    assert(sample_tex_coord(nv, 1, a * 256) == 0) by {
        if nv > 0 {
            assert(nv * 1 == nv);
            lemma_div_pos_is_pos(nv, a * 256);
        }
    }
    assert(sampled_texel(v0, v1, v2, tex, x, y) == tex.pixels[0]);
    assert(e0 * (c.r as int) + e1 * (c.r as int) + e2 * (c.r as int) == a * (c.r as int))
        by (nonlinear_arith)
        requires
            e0 + e1 + e2 == a;
    assert(e0 * (c.g as int) + e1 * (c.g as int) + e2 * (c.g as int) == a * (c.g as int))
        by (nonlinear_arith)
        requires
            e0 + e1 + e2 == a;
    assert(e0 * (c.b as int) + e1 * (c.b as int) + e2 * (c.b as int) == a * (c.b as int))
        by (nonlinear_arith)
        requires
            e0 + e1 + e2 == a;
    assert(e0 * (c.a as int) + e1 * (c.a as int) + e2 * (c.a as int) == a * (c.a as int))
        by (nonlinear_arith)
        requires
            e0 + e1 + e2 == a;
    lemma_div_multiples_vanish(c.r as int, a);
    lemma_div_multiples_vanish(c.g as int, a);
    lemma_div_multiples_vanish(c.b as int, a);
    lemma_div_multiples_vanish(c.a as int, a);
    assert(interp_color_at(v0, v1, v2, x, y) == c);
    lemma_div255_exact(c.r as int);
    lemma_div255_exact(c.g as int);
    lemma_div255_exact(c.b as int);
    lemma_div255_exact(255);
    let sr = modulate_channel(255, c.r as int);
    let sg = modulate_channel(255, c.g as int);
    let sb = modulate_channel(255, c.b as int);
    assert(sr == c.r as int && sg == c.g as int && sb == c.b as int);
    assert(modulate_channel(255, 255) == 255);
    assert((c.r as int) * 255 == 255 * (c.r as int)) by (nonlinear_arith);
    assert((c.g as int) * 255 == 255 * (c.g as int)) by (nonlinear_arith);
    assert((c.b as int) * 255 == 255 * (c.b as int)) by (nonlinear_arith);
    assert(blend_channel(sr, 255, dst.r as int) == c.r as int);
    assert(blend_channel(sg, 255, dst.g as int) == c.g as int);
    assert(blend_channel(sb, 255, dst.b as int) == c.b as int);
}

/// Fill one triangle into the framebuffer.
///
/// The triangle's bounding box is intersected with the clip rectangle
/// (already in whole pixels and within the framebuffer); every covered
/// pixel center inside it is shaded and composited, every other pixel is
/// left untouched, and a triangle with zero signed area writes nothing.
#[verifier::loop_isolation(false)]
#[verifier::rlimit(80)]
pub fn fill_triangle(
    fb: &mut Framebuffer,
    tex: &Texture,
    v0: Vertex,
    v1: Vertex,
    v2: Vertex,
    clip_min_x: i64,
    clip_min_y: i64,
    clip_max_x: i64,
    clip_max_y: i64,
)
    requires
        old(fb).wf(),
        tex@.wf(),
        tex@.width >= 1,
        tex@.height >= 1,
        vertex_wf(v0),
        vertex_wf(v1),
        vertex_wf(v2),
        0 <= clip_min_x <= 32768,
        0 <= clip_min_y <= 32768,
        clip_max_x <= old(fb).width,
        clip_max_y <= old(fb).height,
    ensures
        final(fb).wf(),
        final(fb).width == old(fb).width,
        final(fb).height == old(fb).height,
        final(fb).pixels@ == raster_result(
            v0,
            v1,
            v2,
            tex@,
            clip_min_x as int,
            clip_min_y as int,
            clip_max_x as int,
            clip_max_y as int,
            old(fb).width as int,
            old(fb).pixels@,
        ),
        tri_area(v0, v1, v2) == 0 ==> final(fb).pixels@ == old(fb).pixels@,
{
    let fw = fb.width;
    let plen = fb.pixels.len();
    let tlen = tex.pixels.len();
    let ghost fwi: int = fw as int;
    proof {
        assert(plen == fb.pixels@.len() && tlen == tex.pixels@.len());
    }
    let ghost old_pixels: Seq<Rgba> = fb.pixels@;
    let ghost target: Seq<Rgba> = raster_result(
        v0,
        v1,
        v2,
        tex@,
        clip_min_x as int,
        clip_min_y as int,
        clip_max_x as int,
        clip_max_y as int,
        fwi,
        old_pixels,
    );

    let tmin_x = floor_pixels(min3_i64(v0.x, v1.x, v2.x));
    let tmin_y = floor_pixels(min3_i64(v0.y, v1.y, v2.y));
    let tmax_x = ceil_pixels(max3_i64(v0.x, v1.x, v2.x));
    let tmax_y = ceil_pixels(max3_i64(v0.y, v1.y, v2.y));
    let min_x: i64 = if tmin_x > clip_min_x {
        tmin_x
    } else {
        clip_min_x
    };
    let min_y: i64 = if tmin_y > clip_min_y {
        tmin_y
    } else {
        clip_min_y
    };
    let max_x: i64 = if tmax_x < clip_max_x {
        tmax_x
    } else {
        clip_max_x
    };
    let max_y: i64 = if tmax_y < clip_max_y {
        tmax_y
    } else {
        clip_max_y
    };
    let ghost bminx: int = bbox_min_x(v0, v1, v2, clip_min_x as int);
    let ghost bminy: int = bbox_min_y(v0, v1, v2, clip_min_y as int);
    let ghost bmaxx: int = bbox_max_x(v0, v1, v2, clip_max_x as int);
    let ghost bmaxy: int = bbox_max_y(v0, v1, v2, clip_max_y as int);
    proof {
        assert(min_x as int == bminx);
        assert(min_y as int == bminy);
        assert(max_x as int == bmaxx);
        assert(max_y as int == bmaxy);
    }

    let area = edge_exec(v0.x, v0.y, v1.x, v1.y, v2.x, v2.y);
    if area == 0 {
        proof {
            assert forall|p: int| 0 <= p < old_pixels.len() implies target[p] == old_pixels[p] by {}
            assert(fb.pixels@ =~= target);
        }
        return ;
    }
    if min_x >= max_x || min_y >= max_y {
        proof {
            assert forall|p: int| 0 <= p < old_pixels.len() implies target[p] == old_pixels[p] by {
                lemma_grid_recompose(fwi, p);
            }
            assert(fb.pixels@ =~= target);
        }
        return ;
    }

    let mut y: i64 = min_y;
    while y < max_y
        invariant
            min_y <= y <= max_y,
            fb.width == old(fb).width,
            fb.height == old(fb).height,
            fb.pixels@.len() == old_pixels.len(),
            forall|p: int|
                0 <= p < old_pixels.len() ==> fb.pixels@[p] == (if raster_visited(
                    fwi,
                    bminx,
                    bmaxx,
                    bminy,
                    p,
                    y as int,
                    min_x as int,
                ) {
                    target[p]
                } else {
                    old_pixels[p]
                }),
        decreases max_y - y,
    {
        let mut x: i64 = min_x;
        while x < max_x
            invariant
                min_x <= x <= max_x,
                min_y <= y < max_y,
                fb.width == old(fb).width,
                fb.height == old(fb).height,
                fb.pixels@.len() == old_pixels.len(),
                forall|p: int|
                    0 <= p < old_pixels.len() ==> fb.pixels@[p] == (if raster_visited(
                        fwi,
                        bminx,
                        bmaxx,
                        bminy,
                        p,
                        y as int,
                        x as int,
                    ) {
                        target[p]
                    } else {
                        old_pixels[p]
                    }),
            decreases max_x - x,
        {
            let px = x * 256 + 128;
            let py = y * 256 + 128;
            let e0 = edge_exec(v1.x, v1.y, v2.x, v2.y, px, py);
            let e1 = edge_exec(v2.x, v2.y, v0.x, v0.y, px, py);
            let e2 = area - e0 - e1;
            let ghost xi: int = x as int;
            let ghost yi: int = y as int;
            proof {
                assert(px as int == pixel_center(xi));
                assert(py as int == pixel_center(yi));
                assert(e0 as int == w0_at(v0, v1, v2, xi, yi));
                assert(e1 as int == w1_at(v0, v1, v2, xi, yi));
                assert(e2 as int == w2_at(v0, v1, v2, xi, yi));
                assert(yi * fwi + xi < fwi * (fb.height as int) && 0 <= yi * fwi + xi)
                    by (nonlinear_arith)
                    requires
                        0 <= xi,
                        xi < fwi,
                        0 <= yi,
                        yi + 1 <= fb.height as int;
                lemma_grid_index(fwi, xi, yi);
            }
            let p_idx: usize = (y as usize) * fw + (x as usize);
            if e0 >= 0 && e1 >= 0 && e2 >= 0 {
                let tw = tex.width;
                let th = tex.height;
                let tx = sample_coord_exec(e0, v0.u, e1, v1.u, e2, v2.u, area, tw);
                let ty = sample_coord_exec(e0, v0.v, e1, v1.v, e2, v2.v, area, th);
                proof {
                    assert((ty as int) * (tw as int) + (tx as int) < (tw as int) * (th as int)
                        && 0 <= (ty as int) * (tw as int) + (tx as int)) by (nonlinear_arith)
                        requires
                            0 <= tx as int,
                            (tx as int) < (tw as int),
                            0 <= ty as int,
                            ty as int + 1 <= th as int;
                    assert((tw as int) * (th as int) == tex@.width * tex@.height);
                    assert(tex@.pixels.len() == tlen as int);
                }
                let texel = tex.pixels[ty * tw + tx];
                let vr = interp_channel_exec(
                    area,
                    e0,
                    v0.color.r,
                    e1,
                    v1.color.r,
                    e2,
                    v2.color.r,
                );
                let vg = interp_channel_exec(
                    area,
                    e0,
                    v0.color.g,
                    e1,
                    v1.color.g,
                    e2,
                    v2.color.g,
                );
                let vb = interp_channel_exec(
                    area,
                    e0,
                    v0.color.b,
                    e1,
                    v1.color.b,
                    e2,
                    v2.color.b,
                );
                let va = interp_channel_exec(
                    area,
                    e0,
                    v0.color.a,
                    e1,
                    v1.color.a,
                    e2,
                    v2.color.a,
                );
                let vcol = Rgba { r: vr, g: vg, b: vb, a: va };
                let src = modulate(texel, vcol);
                let dst = fb.pixels[p_idx];
                let out = composite_over(src, dst);
                let written = Rgba { r: out.r, g: out.g, b: out.b, a: 255 };
                fb.pixels.set(p_idx, written);
                proof {
                    assert(covered_at(v0, v1, v2, xi, yi));
                    assert(texel == sampled_texel(v0, v1, v2, tex@, xi, yi));
                    assert(vcol == interp_color_at(v0, v1, v2, xi, yi));
                    assert(dst == old_pixels[p_idx as int]);
                    assert(written == shaded_pixel(v0, v1, v2, tex@, xi, yi,
                        old_pixels[p_idx as int]));
                    assert(target[p_idx as int] == written);
                    assert forall|p: int|
                        0 <= p < old_pixels.len() implies fb.pixels@[p] == (if raster_visited(
                        fwi,
                        bminx,
                        bmaxx,
                        bminy,
                        p,
                        yi,
                        xi + 1,
                    ) {
                        target[p]
                    } else {
                        old_pixels[p]
                    }) by {
                        lemma_grid_recompose(fwi, p);
                    }
                }
            } else {
                proof {
                    assert(!covered_at(v0, v1, v2, xi, yi));
                    assert(target[p_idx as int] == old_pixels[p_idx as int]);
                    assert forall|p: int|
                        0 <= p < old_pixels.len() implies fb.pixels@[p] == (if raster_visited(
                        fwi,
                        bminx,
                        bmaxx,
                        bminy,
                        p,
                        yi,
                        xi + 1,
                    ) {
                        target[p]
                    } else {
                        old_pixels[p]
                    }) by {
                        lemma_grid_recompose(fwi, p);
                    }
                }
            }
            x = x + 1;
        }
        proof {
            assert forall|p: int|
                0 <= p < old_pixels.len() implies (raster_visited(
                fwi,
                bminx,
                bmaxx,
                bminy,
                p,
                y as int,
                max_x as int,
            ) == raster_visited(
                fwi,
                bminx,
                bmaxx,
                bminy,
                p,
                y as int + 1,
                min_x as int,
            )) by {}
        }
        y = y + 1;
    }
    proof {
        assert forall|p: int| 0 <= p < old_pixels.len() implies fb.pixels@[p] == target[p] by {
            lemma_grid_recompose(fwi, p);
        }
        assert(fb.pixels@ =~= target);
    }
}

} // verus!
