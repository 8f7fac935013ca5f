use softrender::color::Rgba;
use softrender::frame::begin_frame;
use softrender::frame::end_frame;
use softrender::frame::paint;
use softrender::frame::ClipRect;
use softrender::frame::ClippedPrimitive;
use softrender::frame::Mesh;
use softrender::frame::Primitive;
use softrender::raster::fill_triangle;
use softrender::raster::Vertex;
use softrender::texture::ImageData;
use softrender::texture::PatchPos;
use softrender::texture::SetEntry;
use softrender::texture::Texture;
use softrender::texture::TextureCache;
use softrender::texture::TextureDelta;

fn rgba(r: u8, g: u8, b: u8, a: u8) -> Rgba {
    Rgba { r, g, b, a }
}

fn vertex(x: i64, y: i64, color: Rgba) -> Vertex {
    Vertex { x, y, u: 0, v: 0, color }
}

fn white_1x1() -> Texture {
    Texture { width: 1, height: 1, pixels: vec![rgba(255, 255, 255, 255)] }
}

fn pixel(fb: &softrender::frame::Framebuffer, x: usize, y: usize) -> Rgba {
    fb.pixels[y * fb.width + x]
}

#[test]
fn zero_area_triangle_writes_nothing() {
    let bg = rgba(7, 8, 9, 255);
    let mut fb = begin_frame(4, 4, bg);
    let tex = white_1x1();
    let c = rgba(200, 100, 50, 255);
    // Three collinear vertices: the signed area is exactly zero.
    let v0 = vertex(0, 0, c);
    let v1 = vertex(256, 256, c);
    let v2 = vertex(512, 512, c);
    fill_triangle(&mut fb, &tex, v0, v1, v2, 0, 0, 4, 4);
    for y in 0..4 {
        for x in 0..4 {
            assert_eq!(pixel(&fb, x, y), bg);
        }
    }
}

#[test]
fn right_triangle_fills_expected_pixels_and_reversed_winding_draws_nothing() {
    let bg = rgba(0, 0, 0, 255);
    let c = rgba(200, 100, 50, 255);
    let tex = white_1x1();
    // Triangle (0,0), (2,0), (0,2) in pixel space, drawn into a 2x2 clip.
    let v0 = vertex(0, 0, c);
    let v1 = vertex(512, 0, c);
    let v2 = vertex(0, 512, c);

    let mut fb = begin_frame(2, 2, bg);
    fill_triangle(&mut fb, &tex, v0, v1, v2, 0, 0, 2, 2);
    assert_eq!(pixel(&fb, 0, 0), c);
    assert_eq!(pixel(&fb, 1, 0), c);
    assert_eq!(pixel(&fb, 0, 1), c);
    assert_eq!(pixel(&fb, 1, 1), bg);

    // The same triangle with its vertex order reversed writes nothing.
    let mut fb2 = begin_frame(2, 2, bg);
    fill_triangle(&mut fb2, &tex, v2, v1, v0, 0, 0, 2, 2);
    for y in 0..2 {
        for x in 0..2 {
            assert_eq!(pixel(&fb2, x, y), bg);
        }
    }
}

#[test]
fn full_cover_triangle_paints_every_pixel_uniformly() {
    let bg = rgba(0, 0, 0, 255);
    let c = rgba(10, 20, 30, 255);
    let tex = white_1x1();
    let mut fb = begin_frame(4, 4, bg);
    // A triangle twice the framebuffer size covers every pixel center.
    let v0 = vertex(0, 0, c);
    let v1 = vertex(2048, 0, c);
    let v2 = vertex(0, 2048, c);
    fill_triangle(&mut fb, &tex, v0, v1, v2, 0, 0, 4, 4);
    for y in 0..4 {
        for x in 0..4 {
            assert_eq!(pixel(&fb, x, y), c);
        }
    }
}

#[test]
fn vertex_colors_interpolate_barycentrically() {
    let bg = rgba(0, 0, 0, 255);
    let tex = white_1x1();
    let mut fb = begin_frame(1, 1, bg);
    // At the center of pixel (0,0) the weights of this triangle are
    // exactly (1/2, 1/4, 1/4), so the red channel lands on
    // 100/2 + 200/4 + 40/4 = 110.
    let v0 = vertex(0, 0, rgba(100, 0, 0, 255));
    let v1 = vertex(512, 0, rgba(200, 0, 0, 255));
    let v2 = vertex(0, 512, rgba(40, 0, 0, 255));
    fill_triangle(&mut fb, &tex, v0, v1, v2, 0, 0, 1, 1);
    assert_eq!(pixel(&fb, 0, 0), rgba(110, 0, 0, 255));
}

#[test]
fn sampling_picks_the_nearest_texel() {
    let bg = rgba(0, 0, 0, 255);
    let red = rgba(255, 0, 0, 255);
    let blue = rgba(0, 0, 255, 255);
    let tex = Texture { width: 2, height: 1, pixels: vec![red, blue] };
    let c = rgba(255, 255, 255, 255);
    // Constant UV of (0.75, 0.5) lands on the right texel everywhere.
    let uv_u = 192;
    let uv_v = 128;
    let mk = |x: i64, y: i64| Vertex { x, y, u: uv_u, v: uv_v, color: c };
    let mut fb = begin_frame(2, 2, bg);
    fill_triangle(&mut fb, &tex, mk(0, 0), mk(1024, 0), mk(0, 1024), 0, 0, 2, 2);
    for y in 0..2 {
        for x in 0..2 {
            assert_eq!(pixel(&fb, x, y), blue);
        }
    }
}

#[test]
fn painter_order_later_primitive_wins() {
    let bg = rgba(0, 0, 0, 255);
    let c1 = rgba(50, 60, 70, 255);
    let c2 = rgba(200, 210, 220, 255);
    let mut cache = TextureCache::new();
    cache.set_full(9, 1, 1, vec![rgba(255, 255, 255, 255)]);
    let clip = ClipRect { min_x: 0, min_y: 0, max_x: 1024, max_y: 1024 };
    let tri = |c: Rgba| Mesh {
        texture_id: 9,
        vertices: vec![vertex(0, 0, c), vertex(2048, 0, c), vertex(0, 2048, c)],
        indices: vec![0, 1, 2],
    };
    let prims = vec![
        ClippedPrimitive { clip, prim: Primitive::Mesh(tri(c1)) },
        ClippedPrimitive { clip, prim: Primitive::Mesh(tri(c2)) },
    ];
    let mut fb = begin_frame(4, 4, bg);
    paint(&mut fb, &cache, &prims);
    for y in 0..4 {
        for x in 0..4 {
            assert_eq!(pixel(&fb, x, y), c2);
        }
    }
}

#[test]
fn freed_texture_draws_nothing_and_raises_no_error() {
    let bg = rgba(1, 2, 3, 255);
    let mut cache = TextureCache::new();
    let set = TextureDelta {
        sets: vec![SetEntry {
            id: 7,
            image: ImageData::Rgba8 { width: 4, height: 4, data: vec![255; 64] },
            pos: None,
        }],
        frees: vec![],
    };
    assert!(cache.apply_delta(&set).is_ok());
    assert!(cache.get(7).is_some());

    let free = TextureDelta { sets: vec![], frees: vec![7] };
    assert!(cache.apply_delta(&free).is_ok());
    assert!(cache.get(7).is_none());

    // A primitive still referencing the freed id is skipped silently.
    let c = rgba(50, 60, 70, 255);
    let mesh = Mesh {
        texture_id: 7,
        vertices: vec![vertex(0, 0, c), vertex(2048, 0, c), vertex(0, 2048, c)],
        indices: vec![0, 1, 2],
    };
    let prims = vec![ClippedPrimitive {
        clip: ClipRect { min_x: 0, min_y: 0, max_x: 1024, max_y: 1024 },
        prim: Primitive::Mesh(mesh),
    }];
    let mut fb = begin_frame(4, 4, bg);
    paint(&mut fb, &cache, &prims);
    for y in 0..4 {
        for x in 0..4 {
            assert_eq!(pixel(&fb, x, y), bg);
        }
    }
}

#[test]
fn partial_patch_touches_exactly_the_addressed_texels() {
    let mut cache = TextureCache::new();
    let delta = TextureDelta {
        sets: vec![
            SetEntry {
                id: 3,
                image: ImageData::Rgba8 { width: 4, height: 4, data: vec![0; 64] },
                pos: None,
            },
            SetEntry {
                id: 3,
                image: ImageData::Rgba8 { width: 2, height: 2, data: vec![255; 16] },
                pos: Some(PatchPos { x: 1, y: 1 }),
            },
        ],
        frees: vec![],
    };
    assert!(cache.apply_delta(&delta).is_ok());
    let tex = cache.get(3).unwrap();
    assert_eq!(tex.width, 4);
    assert_eq!(tex.height, 4);
    for y in 0..4 {
        for x in 0..4 {
            let t = tex.pixels[y * 4 + x];
            if (1..3).contains(&x) && (1..3).contains(&y) {
                assert_eq!(t, rgba(255, 255, 255, 255));
            } else {
                assert_eq!(t, rgba(0, 0, 0, 0));
            }
        }
    }
}

#[test]
fn out_of_bounds_patch_fails_and_changes_nothing() {
    let mut cache = TextureCache::new();
    cache.set_full(5, 2, 2, vec![rgba(9, 9, 9, 9); 4]);
    let r = cache.patch(5, 1, 1, 2, 2, &vec![rgba(1, 1, 1, 1); 4]);
    assert!(r.is_err());
    let tex = cache.get(5).unwrap();
    for p in 0..4 {
        assert_eq!(tex.pixels[p], rgba(9, 9, 9, 9));
    }
    // A patch whose target id was never allocated fails too.
    let r2 = cache.patch(6, 0, 0, 1, 1, &vec![rgba(1, 1, 1, 1)]);
    assert!(r2.is_err());
    assert!(cache.get(6).is_none());
}

#[test]
fn a_bad_patch_stops_the_delta_where_it_failed() {
    let mut cache = TextureCache::new();
    let delta = TextureDelta {
        sets: vec![
            SetEntry {
                id: 1,
                image: ImageData::Rgba8 { width: 2, height: 2, data: vec![9; 16] },
                pos: None,
            },
            // This patch exceeds the 2x2 texture's bounds.
            SetEntry {
                id: 1,
                image: ImageData::Rgba8 { width: 2, height: 2, data: vec![1; 16] },
                pos: Some(PatchPos { x: 1, y: 1 }),
            },
            SetEntry {
                id: 2,
                image: ImageData::Rgba8 { width: 1, height: 1, data: vec![5; 4] },
                pos: None,
            },
        ],
        frees: vec![1],
    };
    assert!(cache.apply_delta(&delta).is_err());
    // The entry before the failure stayed applied, the ones after it
    // (and the frees) were not reached.
    let tex = cache.get(1).unwrap();
    assert_eq!(tex.pixels[0], rgba(9, 9, 9, 9));
    assert!(cache.get(2).is_none());
}

#[test]
fn coverage_data_expands_to_white_with_alpha() {
    let mut cache = TextureCache::new();
    let delta = TextureDelta {
        sets: vec![SetEntry {
            id: 2,
            image: ImageData::Coverage { width: 2, height: 1, data: vec![0, 200] },
            pos: None,
        }],
        frees: vec![],
    };
    assert!(cache.apply_delta(&delta).is_ok());
    let tex = cache.get(2).unwrap();
    assert_eq!(tex.pixels[0], rgba(255, 255, 255, 0));
    assert_eq!(tex.pixels[1], rgba(255, 255, 255, 200));
}

#[test]
fn begin_frame_clears_and_end_frame_packs() {
    let bg = rgba(20, 20, 20, 255);
    let mut fb = begin_frame(2, 2, bg);
    for p in 0..4 {
        assert_eq!(fb.pixels[p], bg);
    }
    fb.pixels[3] = rgba(1, 2, 3, 255);
    let out = end_frame(&fb);
    assert_eq!(out.len(), 4);
    assert_eq!(out[0], (20u32 << 16) | (20u32 << 8) | 20u32);
    assert_eq!(out[3], (1u32 << 16) | (2u32 << 8) | 3u32);
}
