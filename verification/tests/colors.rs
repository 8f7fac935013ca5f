use softrender::color::composite_over;
use softrender::color::div255_exec;
use softrender::color::modulate;
use softrender::color::Rgba;

fn rgba(r: u8, g: u8, b: u8, a: u8) -> Rgba {
    Rgba { r, g, b, a }
}

#[test]
fn opaque_white_source_covers_any_destination() {
    let white = rgba(255, 255, 255, 255);
    let destinations = [
        rgba(0, 0, 0, 0),
        rgba(0, 0, 0, 255),
        rgba(13, 77, 201, 9),
        rgba(255, 255, 255, 255),
        rgba(128, 128, 128, 128),
    ];
    for d in destinations {
        assert_eq!(composite_over(white, d), white);
    }
}

#[test]
fn zero_alpha_source_leaves_destination_unchanged() {
    let sources = [rgba(0, 0, 0, 0), rgba(255, 255, 255, 0), rgba(1, 99, 200, 0)];
    let destinations = [
        rgba(0, 0, 0, 0),
        rgba(13, 77, 201, 9),
        rgba(255, 255, 255, 255),
        rgba(66, 66, 66, 66),
    ];
    for s in sources {
        for d in destinations {
            assert_eq!(composite_over(s, d), d);
        }
    }
}

#[test]
fn opaque_source_replaces_destination() {
    let s = rgba(12, 34, 56, 255);
    let d = rgba(200, 100, 0, 255);
    assert_eq!(composite_over(s, d), s);
}

#[test]
fn half_alpha_blend_rounds_to_nearest() {
    // src = (255,0,0) at alpha 128 over black: 255*128/255 = 128 exactly.
    let s = rgba(255, 0, 0, 128);
    let d = rgba(0, 0, 0, 255);
    let out = composite_over(s, d);
    assert_eq!(out.r, 128);
    assert_eq!(out.g, 0);
    assert_eq!(out.b, 0);
    assert_eq!(out.a, 255);
}

#[test]
fn modulate_by_white_is_identity_and_by_black_is_zero() {
    let white = rgba(255, 255, 255, 255);
    let c = rgba(10, 20, 30, 40);
    assert_eq!(modulate(white, c), c);
    assert_eq!(modulate(c, white), c);
    let black_transparent = rgba(0, 0, 0, 0);
    assert_eq!(modulate(c, black_transparent), black_transparent);
}

#[test]
fn div255_rounds_to_nearest() {
    assert_eq!(div255_exec(0), 0);
    assert_eq!(div255_exec(255), 1);
    assert_eq!(div255_exec(127), 0);
    assert_eq!(div255_exec(128), 1);
    assert_eq!(div255_exec(255 * 255), 255);
    assert_eq!(div255_exec(254 * 255), 254);
}
