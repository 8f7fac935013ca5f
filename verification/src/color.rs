//! RGBA colors and the `source-over` compositing arithmetic.
//!
//! All blending is done in 8-bit integer space. A product of two 8-bit
//! channels is mapped back to 8 bits by a division by 255 rounded to the
//! nearest integer, so that full white and full alpha behave exactly.

use vstd::prelude::*;

verus! {

use vstd::arithmetic::div_mod::lemma_div_is_ordered;
use vstd::arithmetic::div_mod::lemma_fundamental_div_mod_converse_div;

/// An RGBA color, 8 bits per channel, not premultiplied.
#[derive(Clone, Copy, PartialEq, Eq, Structural, Debug)]
pub struct Rgba {
    pub r: u8,
    pub g: u8,
    pub b: u8,
    pub a: u8,
}

/// Division by 255 rounded to the nearest integer, used to bring the
/// product of two 8-bit channels back into 8-bit range.
pub open spec fn div255(x: int) -> int {
    (x + 127) / 255
}

/// Channel-wise modulation: the texel channel scaled by the vertex channel,
/// both read as fractions of 255.
pub open spec fn modulate_channel(t: int, v: int) -> int {
    div255(t * v)
}

/// One color channel of `source-over` blending in 8-bit space:
/// `out = src*srcA + dst*(1 - srcA)` with all channels as fractions of 255.
pub open spec fn blend_channel(src: int, src_a: int, dst: int) -> int {
    div255(src * src_a + dst * (255 - src_a))
}

/// The alpha channel of `source-over`: `out = srcA + dstA*(1 - srcA)`.
pub open spec fn blend_alpha(src_a: int, dst_a: int) -> int {
    src_a + div255(dst_a * (255 - src_a))
}

/// A multiple of 255 divides back exactly.
pub proof fn lemma_div255_exact(k: int)
    requires
        0 <= k,
    ensures
        div255(255 * k) == k,
{
    lemma_fundamental_div_mod_converse_div(255 * k + 127, 255, k, 127);
}

/// `div255` is monotonic.
pub proof fn lemma_div255_ordered(x: int, y: int)
    requires
        x <= y,
    ensures
        div255(x) <= div255(y),
{
    lemma_div_is_ordered(x + 127, y + 127, 255);
}

/// A product of two channels in `0..=255` divides back into `0..=255`.
pub proof fn lemma_div255_bounds(x: int)
    requires
        0 <= x <= 65025,
    ensures
        0 <= div255(x) <= 255,
{
    lemma_div255_ordered(0, x);
    lemma_div255_ordered(x, 65025);
    lemma_div255_exact(0);
    lemma_div255_exact(255);
}

/// Compositing any fully opaque source replaces the destination: in
/// particular, opaque white over any destination yields opaque white.
pub proof fn lemma_composite_opaque(src: Rgba, dst: Rgba)
    requires
        src.a == 255,
    ensures
        blend_channel(src.r as int, 255, dst.r as int) == src.r as int,
        blend_channel(src.g as int, 255, dst.g as int) == src.g as int,
        blend_channel(src.b as int, 255, dst.b as int) == src.b as int,
        blend_alpha(255, dst.a as int) == 255,
{
    lemma_div255_exact(src.r as int);
    lemma_div255_exact(src.g as int);
    lemma_div255_exact(src.b as int);
    lemma_div255_exact(0);
}

/// Compositing a source with alpha zero leaves the destination unchanged.
pub proof fn lemma_composite_transparent(src: Rgba, dst: Rgba)
    requires
        src.a == 0,
    ensures
        blend_channel(src.r as int, 0, dst.r as int) == dst.r as int,
        blend_channel(src.g as int, 0, dst.g as int) == dst.g as int,
        blend_channel(src.b as int, 0, dst.b as int) == dst.b as int,
        blend_alpha(0, dst.a as int) == dst.a as int,
{
    lemma_div255_exact(dst.r as int);
    lemma_div255_exact(dst.g as int);
    lemma_div255_exact(dst.b as int);
    lemma_div255_exact(dst.a as int);
}

/// Rounded division by 255 of a value no greater than `255 * 255`.
pub fn div255_exec(x: u32) -> (r: u8)
    requires
        x <= 65025,
    ensures
        r as int == div255(x as int),
{
    proof {
        lemma_div255_bounds(x as int);
    }
    ((x + 127) / 255) as u8
}

/// Modulate a sampled texel by an interpolated vertex color, channel-wise.
pub fn modulate(t: Rgba, v: Rgba) -> (r: Rgba)
    ensures
        r.r as int == modulate_channel(t.r as int, v.r as int),
        r.g as int == modulate_channel(t.g as int, v.g as int),
        r.b as int == modulate_channel(t.b as int, v.b as int),
        r.a as int == modulate_channel(t.a as int, v.a as int),
{
    proof {
        assert(t.r as int * v.r as int <= 65025 && t.g as int * v.g as int <= 65025 && t.b as int
            * v.b as int <= 65025 && t.a as int * v.a as int <= 65025) by (nonlinear_arith)
            requires
                0 <= t.r as int <= 255,
                0 <= t.g as int <= 255,
                0 <= t.b as int <= 255,
                0 <= t.a as int <= 255,
                0 <= v.r as int <= 255,
                0 <= v.g as int <= 255,
                0 <= v.b as int <= 255,
                0 <= v.a as int <= 255;
    }
    Rgba {
        r: div255_exec(t.r as u32 * v.r as u32),
        g: div255_exec(t.g as u32 * v.g as u32),
        b: div255_exec(t.b as u32 * v.b as u32),
        a: div255_exec(t.a as u32 * v.a as u32),
    }
}

/// Composite `src` over `dst` with standard `source-over` alpha blending.
pub fn composite_over(src: Rgba, dst: Rgba) -> (out: Rgba)
    ensures
        out.r as int == blend_channel(src.r as int, src.a as int, dst.r as int),
        out.g as int == blend_channel(src.g as int, src.a as int, dst.g as int),
        out.b as int == blend_channel(src.b as int, src.a as int, dst.b as int),
        out.a as int == blend_alpha(src.a as int, dst.a as int),
{
    let sa: u32 = src.a as u32;
    proof {
        assert(src.r as int * sa as int + dst.r as int * (255 - sa as int) <= 65025)
            by (nonlinear_arith)
            requires
                0 <= src.r as int <= 255,
                0 <= dst.r as int <= 255,
                0 <= sa as int <= 255;
        assert(src.g as int * sa as int + dst.g as int * (255 - sa as int) <= 65025)
            by (nonlinear_arith)
            requires
                0 <= src.g as int <= 255,
                0 <= dst.g as int <= 255,
                0 <= sa as int <= 255;
        assert(src.b as int * sa as int + dst.b as int * (255 - sa as int) <= 65025)
            by (nonlinear_arith)
            requires
                0 <= src.b as int <= 255,
                0 <= dst.b as int <= 255,
                0 <= sa as int <= 255;
        assert(dst.a as int * (255 - sa as int) <= 255 * (255 - sa as int)) by (nonlinear_arith)
            requires
                0 <= dst.a as int <= 255,
                0 <= sa as int <= 255;
        lemma_div255_ordered(dst.a as int * (255 - sa as int), 255 * (255 - sa as int));
        lemma_div255_exact(255 - sa as int);
        lemma_div255_bounds(dst.a as int * (255 - sa as int));
    }
    let out_a: u32 = sa + div255_exec(dst.a as u32 * (255 - sa)) as u32;
    Rgba {
        r: div255_exec(src.r as u32 * sa + dst.r as u32 * (255 - sa)),
        g: div255_exec(src.g as u32 * sa + dst.g as u32 * (255 - sa)),
        b: div255_exec(src.b as u32 * sa + dst.b as u32 * (255 - sa)),
        a: out_a as u8,
    }
}

} // verus!
