//! The texture cache: decoded RGBA textures keyed by an opaque id,
//! mutated by incremental deltas (full replacement, partial patch, free).
//!
//! A texture holds one [`Rgba`] element per texel, row-major with the
//! origin at the top left. Image data arrives either as raw RGBA bytes or
//! as single-channel coverage data; coverage is expanded to white with the
//! channel as alpha, so that the compositor can later tint glyphs through
//! per-vertex color modulation.

use vstd::prelude::*;

use crate::color::Rgba;
use std::collections::HashMap;

verus! {

use vstd::arithmetic::div_mod::lemma_fundamental_div_mod;
use vstd::arithmetic::div_mod::lemma_fundamental_div_mod_converse_div;
use vstd::arithmetic::div_mod::lemma_fundamental_div_mod_converse_mod;
use vstd::pervasive::VecAdditionalExecFns;

/// Largest accepted texture edge, in texels.
pub const MAX_TEXTURE_DIM: usize = 65536;

/// Row-major decomposition: position `ty*dw + tx` in a row-major grid of
/// width `dw` splits back into its row and column.
pub proof fn lemma_grid_index(dw: int, tx: int, ty: int)
    requires
        0 <= tx < dw,
    ensures
        (ty * dw + tx) / dw == ty,
        (ty * dw + tx) % dw == tx,
{
    lemma_fundamental_div_mod_converse_div(ty * dw + tx, dw, ty, tx);
    lemma_fundamental_div_mod_converse_mod(ty * dw + tx, dw, ty, tx);
}

/// Composition of a row-major position from its decomposition.
pub proof fn lemma_grid_recompose(dw: int, p: int)
    requires
        dw > 0,
    ensures
        p == (p / dw) * dw + (p % dw),
        p == dw * (p / dw) + (p % dw),
{
    lemma_fundamental_div_mod(p, dw);
    assert((p / dw) * dw == dw * (p / dw)) by (nonlinear_arith);
}

/// A row-major position inside a `dw * dh` grid decomposes into a row
/// below `dh` and a column below `dw`.
pub proof fn lemma_grid_bounds(dw: int, dh: int, p: int)
    requires
        dw > 0,
        0 <= p < dw * dh,
    ensures
        0 <= p / dw < dh,
        0 <= p % dw < dw,
{
    lemma_fundamental_div_mod(p, dw);
    assert((dh - 1) * dw + (dw - 1) == dw * dh - 1) by (nonlinear_arith);
    lemma_fundamental_div_mod_converse_div(dw * dh - 1, dw, dh - 1, dw - 1);
    vstd::arithmetic::div_mod::lemma_div_is_ordered(p, dw * dh - 1, dw);
    vstd::arithmetic::div_mod::lemma_div_is_ordered(0, p, dw);
}

/// The mathematical value of a texture: its dimensions and texels.
#[verifier::ext_equal]
pub ghost struct TexView {
    pub width: int,
    pub height: int,
    pub pixels: Seq<Rgba>,
}

impl TexView {
    /// Dimensions within machine limits and one texel per grid cell.
    pub open spec fn wf(self) -> bool {
        &&& 0 <= self.width <= MAX_TEXTURE_DIM
        &&& 0 <= self.height <= MAX_TEXTURE_DIM
        &&& self.pixels.len() == self.width * self.height
    }
}

/// A decoded texture: `width * height` texels, row-major, top-left origin.
#[derive(Clone)]
pub struct Texture {
    pub width: usize,
    pub height: usize,
    pub pixels: Vec<Rgba>,
}

impl View for Texture {
    type V = TexView;

    open spec fn view(&self) -> TexView {
        TexView { width: self.width as int, height: self.height as int, pixels: self.pixels@ }
    }
}

/// Coverage data expanded to white-tinted RGBA: the channel value becomes
/// the alpha and the color is fixed at full white.
pub open spec fn expand_coverage(cov: Seq<u8>) -> Seq<Rgba> {
    Seq::new(cov.len(), |i: int| (Rgba { r: 255, g: 255, b: 255, a: cov[i] }))
}

/// Raw RGBA bytes regrouped into texels, four bytes per texel.
pub open spec fn pixels_of_bytes(b: Seq<u8>) -> Seq<Rgba> {
    Seq::new(
        b.len() / 4,
        |i: int| (Rgba { r: b[4 * i], g: b[4 * i + 1], b: b[4 * i + 2], a: b[4 * i + 3] }),
    )
}

/// The texels of `dst` (row-major, width `dw`) after copying the patch
/// `src` (of size `pw * ph`) to the offset `(px, py)`.
pub open spec fn patched_pixels(
    dst: Seq<Rgba>,
    dw: int,
    px: int,
    py: int,
    pw: int,
    ph: int,
    src: Seq<Rgba>,
) -> Seq<Rgba> {
    Seq::new(
        dst.len(),
        |p: int|
            {
                let ty = p / dw;
                let tx = p % dw;
                if px <= tx < px + pw && py <= ty < py + ph {
                    src[(ty - py) * pw + (tx - px)]
                } else {
                    dst[p]
                }
            },
    )
}

/// The error reported for a partial patch that misses its target texture
/// or would write outside the target's bounds.
#[derive(Clone, Copy, PartialEq, Eq, Structural, Debug)]
pub struct TextureBoundsError;

/// Expand single-channel coverage data to white-tinted RGBA texels.
pub fn coverage_to_pixels(cov: &Vec<u8>) -> (out: Vec<Rgba>)
    ensures
        out@ == expand_coverage(cov@),
{
    let mut out: Vec<Rgba> = Vec::new();
    let n = cov.len();
    for i in 0..n
        invariant
            n == cov@.len(),
            out@.len() == i,
            forall|j: int| 0 <= j < i ==> out@[j] == expand_coverage(cov@)[j],
    {
        out.push(Rgba { r: 255, g: 255, b: 255, a: cov[i] });
    }
    proof {
        assert(out@ =~= expand_coverage(cov@));
    }
    out
}

/// Regroup raw RGBA bytes into texels, four bytes per texel.
pub fn bytes_to_pixels(data: &Vec<u8>) -> (out: Vec<Rgba>)
    requires
        data@.len() % 4 == 0,
    ensures
        out@ == pixels_of_bytes(data@),
{
    let n = data.len() / 4;
    let mut out: Vec<Rgba> = Vec::new();
    proof {
        lemma_fundamental_div_mod(data@.len() as int, 4);
    }
    for i in 0..n
        invariant
            data@.len() == 4 * n,
            4 * n <= usize::MAX,
            out@.len() == i,
            forall|j: int| 0 <= j < i ==> out@[j] == pixels_of_bytes(data@)[j],
    {
        out.push(
            Rgba {
                r: data[4 * i],
                g: data[4 * i + 1],
                b: data[4 * i + 2],
                a: data[4 * i + 3],
            },
        );
    }
    proof {
        assert(out@ =~= pixels_of_bytes(data@));
    }
    out
}

/// Owns every decoded texture, keyed by an opaque id. The cache is the
/// sole owner: textures are created and replaced by `set` entries,
/// patched in place, and dropped only by an explicit free.
pub struct TextureCache {
    m: HashMap<u64, Texture>,
}

impl View for TextureCache {
    type V = Map<u64, TexView>;

    closed spec fn view(&self) -> Map<u64, TexView> {
        Map::new(|id: u64| self.m@.dom().contains(id), |id: u64| self.m@[id]@)
    }
}

impl TextureCache {
    /// Every stored texture is well formed.
    pub open spec fn wf(self) -> bool {
        forall|id: u64| #[trigger] self@.dom().contains(id) ==> self@[id].wf()
    }

    /// An empty cache.
    pub fn new() -> (c: TextureCache)
        ensures
            c@ == Map::<u64, TexView>::empty(),
            c.wf(),
    {
        let c = TextureCache { m: HashMap::new() };
        proof {
            assert(c@ =~= Map::<u64, TexView>::empty());
        }
        c
    }

    /// Look a texture up; absent ids report `None`.
    pub fn get(&self, id: u64) -> (r: Option<&Texture>)
        ensures
            match r {
                Some(t) => self@.dom().contains(id) && t@ == self@[id],
                None => !self@.dom().contains(id),
            },
    {
        self.m.get(&id)
    }

    /// Full (re)allocation: any previous texture at `id` is replaced by
    /// the supplied texels with the supplied dimensions.
    pub fn set_full(&mut self, id: u64, width: usize, height: usize, pixels: Vec<Rgba>)
        requires
            old(self).wf(),
            width <= MAX_TEXTURE_DIM,
            height <= MAX_TEXTURE_DIM,
            pixels@.len() == width * height,
        ensures
            final(self).wf(),
            final(self)@ == old(self)@.insert(
                id,
                (TexView { width: width as int, height: height as int, pixels: pixels@ }),
            ),
    {
        let ghost target = self@.insert(
            id,
            TexView { width: width as int, height: height as int, pixels: pixels@ },
        );
        self.m.insert(id, Texture { width, height, pixels });
        proof {
            assert(self@ =~= target);
        }
    }

    /// Remove the texture at `id`; later lookups report it absent.
    pub fn free(&mut self, id: u64)
        requires
            old(self).wf(),
        ensures
            final(self).wf(),
            final(self)@ == old(self)@.remove(id),
    {
        let ghost target = self@.remove(id);
        self.m.remove(&id);
        proof {
            assert(self@ =~= target);
        }
    }

    /// Partial patch: copy a `width * height` block of texels into the
    /// already-allocated texture at `id` at offset `(x, y)`, leaving all
    /// other texels untouched. A patch that misses its target or exceeds
    /// the target's bounds fails and changes nothing.
    #[verifier::loop_isolation(false)]
    pub fn patch(
        &mut self,
        id: u64,
        x: usize,
        y: usize,
        width: usize,
        height: usize,
        pixels: &Vec<Rgba>,
    ) -> (r: Result<(), TextureBoundsError>)
        requires
            old(self).wf(),
            width <= MAX_TEXTURE_DIM,
            height <= MAX_TEXTURE_DIM,
            x <= MAX_TEXTURE_DIM,
            y <= MAX_TEXTURE_DIM,
            pixels@.len() == width * height,
        ensures
            final(self).wf(),
            (r is Ok) <==> (old(self)@.dom().contains(id) && x + width <= old(self)@[id].width
                && y + height <= old(self)@[id].height),
            (r is Err) ==> final(self)@ == old(self)@,
            (r is Ok) ==> final(self)@ == old(self)@.insert(
                id,
                (TexView {
                    width: old(self)@[id].width,
                    height: old(self)@[id].height,
                    pixels: patched_pixels(
                        old(self)@[id].pixels,
                        old(self)@[id].width,
                        x as int,
                        y as int,
                        width as int,
                        height as int,
                        pixels@,
                    ),
                }),
            ),
    {
        let tex_opt = self.m.remove(&id);
        match tex_opt {
            None => {
                proof {
                    assert(self@ =~= old(self)@);
                }
                Err(TextureBoundsError)
            },
            Some(mut tex) => {
                proof {
                    assert(old(self)@.dom().contains(id));
                    assert(tex@ == old(self)@[id]);
                    assert(old(self)@[id].wf());
                }
                let dw = tex.width;
                let dh = tex.height;
                let src_len = pixels.len();
                if x + width > dw || y + height > dh {
                    self.m.insert(id, tex);
                    proof {
                        assert(self@ =~= old(self)@);
                    }
                    return Err(TextureBoundsError);
                }
                let tex_len = tex.pixels.len();
                let ghost dst0: Seq<Rgba> = tex.pixels@;
                proof {
                    assert(dst0.len() <= usize::MAX);
                }
                let ghost target: Seq<Rgba> = patched_pixels(
                    dst0,
                    dw as int,
                    x as int,
                    y as int,
                    width as int,
                    height as int,
                    pixels@,
                );
                for row in 0..height
                    invariant
                        tex.width == dw,
                        tex.height == dh,
                        x + width <= dw,
                        y + height <= dh,
                        width <= MAX_TEXTURE_DIM,
                        height <= MAX_TEXTURE_DIM,
                        pixels@.len() == width * height,
                        pixels@.len() <= usize::MAX,
                        tex.pixels@.len() == dst0.len(),
                        dst0.len() == dw as int * dh as int,
                        target == patched_pixels(
                            dst0,
                            dw as int,
                            x as int,
                            y as int,
                            width as int,
                            height as int,
                            pixels@,
                        ),
                        forall|p: int|
                            0 <= p < dst0.len() ==> tex.pixels@[p] == (if patch_copied(
                                dw as int,
                                x as int,
                                y as int,
                                width as int,
                                p,
                                row as int,
                                0,
                            ) {
                                target[p]
                            } else {
                                dst0[p]
                            }),
                {
                    for col in 0..width
                        invariant
                            tex.width == dw,
                            tex.height == dh,
                            x + width <= dw,
                            y + height <= dh,
                            row < height,
                            width <= MAX_TEXTURE_DIM,
                            height <= MAX_TEXTURE_DIM,
                            pixels@.len() == width * height,
                            pixels@.len() <= usize::MAX,
                            tex.pixels@.len() == dst0.len(),
                            dst0.len() == dw as int * dh as int,
                            target == patched_pixels(
                                dst0,
                                dw as int,
                                x as int,
                                y as int,
                                width as int,
                                height as int,
                                pixels@,
                            ),
                            forall|p: int|
                                0 <= p < dst0.len() ==> tex.pixels@[p] == (if patch_copied(
                                    dw as int,
                                    x as int,
                                    y as int,
                                    width as int,
                                    p,
                                    row as int,
                                    col as int,
                                ) {
                                    target[p]
                                } else {
                                    dst0[p]
                                }),
                    {
                        proof {
                            assert((y + row) as int * dw as int + (x + col) < dw as int * dh
                                as int) by (nonlinear_arith)
                                requires
                                    0 <= x,
                                    0 <= y,
                                    0 <= col,
                                    0 <= row,
                                    x + col < dw as int,
                                    y + row < dh as int,
                                    dw as int >= 0;
                            assert(row as int * width as int + col < width as int * height
                                as int) by (nonlinear_arith)
                                requires
                                    0 <= col < width as int,
                                    0 <= row < height as int;
                        }
                        let dst_p: usize = (y + row) * dw + (x + col);
                        let src_p: usize = row * width + col;
                        tex.pixels.set(dst_p, pixels[src_p]);
                        proof {
                            lemma_grid_index(dw as int, (x + col) as int, (y + row) as int);
                            assert forall|p: int|
                                0 <= p < dst0.len() implies tex.pixels@[p] == (if patch_copied(
                                dw as int,
                                x as int,
                                y as int,
                                width as int,
                                p,
                                row as int,
                                col as int + 1,
                            ) {
                                target[p]
                            } else {
                                dst0[p]
                            }) by {
                                lemma_grid_recompose(dw as int, p);
                            }
                        }
                    }
                    proof {
                        assert forall|p: int|
                            0 <= p < dst0.len() implies (patch_copied(
                            dw as int,
                            x as int,
                            y as int,
                            width as int,
                            p,
                            row as int,
                            width as int,
                        ) == patch_copied(
                            dw as int,
                            x as int,
                            y as int,
                            width as int,
                            p,
                            row as int + 1,
                            0,
                        )) by {}
                    }
                }
                proof {
                    assert(tex.pixels@ =~= target);
                }
                self.m.insert(id, tex);
                proof {
                    assert(self@ =~= old(self)@.insert(
                        id,
                        TexView {
                            width: old(self)@[id].width,
                            height: old(self)@[id].height,
                            pixels: target,
                        },
                    ));
                }
                Ok(())
            },
        }
    }
}

/// Where a partial patch lands inside its target texture.
#[derive(Clone, Copy, PartialEq, Eq, Structural, Debug)]
pub struct PatchPos {
    pub x: usize,
    pub y: usize,
}

/// Image data for one `set` entry, in the two shapes it arrives in:
/// ready RGBA bytes, or single-channel coverage data.
pub enum ImageData {
    Rgba8 { width: usize, height: usize, data: Vec<u8> },
    Coverage { width: usize, height: usize, data: Vec<u8> },
}

/// One `set` entry of a delta: image data for a texture id, either a full
/// (re)allocation (no position) or a partial patch at a position.
pub struct SetEntry {
    pub id: u64,
    pub image: ImageData,
    pub pos: Option<PatchPos>,
}

/// One frame's incremental texture changes: `set` entries applied in
/// order, then frees.
pub struct TextureDelta {
    pub sets: Vec<SetEntry>,
    pub frees: Vec<u64>,
}

pub open spec fn image_width(img: ImageData) -> int {
    match img {
        ImageData::Rgba8 { width, .. } => width as int,
        ImageData::Coverage { width, .. } => width as int,
    }
}

pub open spec fn image_height(img: ImageData) -> int {
    match img {
        ImageData::Rgba8 { height, .. } => height as int,
        ImageData::Coverage { height, .. } => height as int,
    }
}

/// The texels an image carries, normalized to RGBA.
pub open spec fn image_pixels(img: ImageData) -> Seq<Rgba> {
    match img {
        ImageData::Rgba8 { data, .. } => pixels_of_bytes(data@),
        ImageData::Coverage { data, .. } => expand_coverage(data@),
    }
}

/// The texture an image describes.
pub open spec fn image_view(img: ImageData) -> TexView {
    TexView { width: image_width(img), height: image_height(img), pixels: image_pixels(img) }
}

/// Dimensions within limits and a data length that matches them exactly.
pub open spec fn image_wf(img: ImageData) -> bool {
    match img {
        ImageData::Rgba8 { width, height, data } => width <= MAX_TEXTURE_DIM && height
            <= MAX_TEXTURE_DIM && data@.len() == width * height * 4,
        ImageData::Coverage { width, height, data } => width <= MAX_TEXTURE_DIM && height
            <= MAX_TEXTURE_DIM && data@.len() == width * height,
    }
}

pub open spec fn entry_wf(e: SetEntry) -> bool {
    &&& image_wf(e.image)
    &&& match e.pos {
        Some(p) => p.x <= MAX_TEXTURE_DIM && p.y <= MAX_TEXTURE_DIM,
        None => true,
    }
}

/// The cache contents after one `set` entry, and whether it was accepted:
/// an entry with no position replaces the texture outright; one with a
/// position must land inside an already-allocated texture, else it is
/// rejected and changes nothing.
pub open spec fn apply_set_spec(m: Map<u64, TexView>, e: SetEntry) -> (Map<u64, TexView>, bool) {
    match e.pos {
        None => (m.insert(e.id, image_view(e.image)), true),
        Some(p) => {
            if m.dom().contains(e.id) && p.x + image_width(e.image) <= m[e.id].width && p.y
                + image_height(e.image) <= m[e.id].height {
                (
                    m.insert(
                        e.id,
                        TexView {
                            width: m[e.id].width,
                            height: m[e.id].height,
                            pixels: patched_pixels(
                                m[e.id].pixels,
                                m[e.id].width,
                                p.x as int,
                                p.y as int,
                                image_width(e.image),
                                image_height(e.image),
                                image_pixels(e.image),
                            ),
                        },
                    ),
                    true,
                )
            } else {
                (m, false)
            }
        },
    }
}

/// The cache contents after the first `n` `set` entries, stopping at the
/// first rejected entry.
pub open spec fn apply_sets_spec(m: Map<u64, TexView>, sets: Seq<SetEntry>, n: int) -> (
    Map<u64, TexView>,
    bool,
)
    decreases n,
{
    if n <= 0 {
        (m, true)
    } else {
        let prev = apply_sets_spec(m, sets, n - 1);
        if !prev.1 {
            prev
        } else {
            apply_set_spec(prev.0, sets[n - 1])
        }
    }
}

/// The cache contents after the first `n` frees.
pub open spec fn apply_frees_spec(m: Map<u64, TexView>, frees: Seq<u64>, n: int) -> Map<
    u64,
    TexView,
>
    decreases n,
{
    if n <= 0 {
        m
    } else {
        apply_frees_spec(m, frees, n - 1).remove(frees[n - 1])
    }
}

/// The cache contents after a whole delta, and whether every entry was
/// accepted: all `set` entries in order, then, if none was rejected, all
/// frees.
pub open spec fn apply_delta_spec(m: Map<u64, TexView>, sets: Seq<SetEntry>, frees: Seq<u64>) -> (
    Map<u64, TexView>,
    bool,
) {
    let s = apply_sets_spec(m, sets, sets.len() as int);
    if s.1 {
        (apply_frees_spec(s.0, frees, frees.len() as int), true)
    } else {
        s
    }
}

/// Once one `set` entry is rejected, the fold stays put.
pub proof fn lemma_sets_stop(m: Map<u64, TexView>, sets: Seq<SetEntry>, i: int, n: int)
    requires
        0 <= i <= n,
        !apply_sets_spec(m, sets, i).1,
    ensures
        apply_sets_spec(m, sets, n) == apply_sets_spec(m, sets, i),
    decreases n - i,
{
    if n > i {
        lemma_sets_stop(m, sets, i, n - 1);
    }
}

/// Whether texel `p` has already been written when the row-major patch
/// copy has reached row `row`, column `col` (texels in earlier rows of the
/// patch, or to the left in the current row).
pub open spec fn patch_copied(
    dw: int,
    px: int,
    py: int,
    pw: int,
    p: int,
    row: int,
    col: int,
) -> bool {
    let ty = p / dw;
    let tx = p % dw;
    &&& px <= tx < px + pw
    &&& py <= ty
    &&& {
        ||| ty - py < row
        ||| (ty - py == row && tx - px < col)
    }
}

impl TextureCache {
    /// Apply one frame's delta in full: every `set` entry in order, then
    /// every free. The first patch that misses its target or exceeds its
    /// bounds stops the delta with an error; entries before it stay
    /// applied and the frees are not reached.
    #[verifier::loop_isolation(false)]
    pub fn apply_delta(&mut self, delta: &TextureDelta) -> (r: Result<(), TextureBoundsError>)
        requires
            old(self).wf(),
            forall|j: int| 0 <= j < delta.sets@.len() ==> entry_wf(#[trigger] delta.sets@[j]),
        ensures
            final(self).wf(),
            final(self)@ == apply_delta_spec(old(self)@, delta.sets@, delta.frees@).0,
            (r is Ok) <==> apply_delta_spec(old(self)@, delta.sets@, delta.frees@).1,
    {
        let ns = delta.sets.len();
        for j in 0..ns
            invariant
                self.wf(),
                apply_sets_spec(old(self)@, delta.sets@, j as int).1,
                self@ == apply_sets_spec(old(self)@, delta.sets@, j as int).0,
        {
            let e = &delta.sets[j];
            let (w, h, px) = match &e.image {
                ImageData::Rgba8 { width, height, data } => {
                    proof {
                        lemma_fundamental_div_mod_converse_mod(
                            (*width as int) * (*height as int) * 4,
                            4,
                            (*width as int) * (*height as int),
                            0,
                        );
                        lemma_fundamental_div_mod_converse_div(
                            (*width as int) * (*height as int) * 4,
                            4,
                            (*width as int) * (*height as int),
                            0,
                        );
                    }
                    (*width, *height, bytes_to_pixels(data))
                },
                ImageData::Coverage { width, height, data } => {
                    (*width, *height, coverage_to_pixels(data))
                },
            };
            proof {
                assert(px@ == image_pixels(e.image));
                assert(w as int == image_width(e.image));
                assert(h as int == image_height(e.image));
            }
            match &e.pos {
                None => {
                    self.set_full(e.id, w, h, px);
                    proof {
                        assert(self@ =~= apply_sets_spec(
                            old(self)@,
                            delta.sets@,
                            j as int + 1,
                        ).0);
                    }
                },
                Some(p) => {
                    let outcome = self.patch(e.id, p.x, p.y, w, h, &px);
                    match outcome {
                        Ok(()) => {
                            proof {
                                assert(self@ =~= apply_sets_spec(
                                    old(self)@,
                                    delta.sets@,
                                    j as int + 1,
                                ).0);
                            }
                        },
                        Err(err) => {
                            proof {
                                lemma_sets_stop(
                                    old(self)@,
                                    delta.sets@,
                                    j as int + 1,
                                    delta.sets@.len() as int,
                                );
                            }
                            return Err(err);
                        },
                    }
                },
            }
        }
        let ghost after_sets: Map<u64, TexView> = self@;
        let nf = delta.frees.len();
        for k in 0..nf
            invariant
                self.wf(),
                self@ == apply_frees_spec(after_sets, delta.frees@, k as int),
        {
            self.free(delta.frees[k]);
        }
        Ok(())
    }
}

} // verus!
