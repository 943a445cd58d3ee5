use svg2png::errors::ItemError;
use svg2png::pixel::Rgba;
use svg2png::raster::{filled, resample, Raster};

fn opaque(r: u8, g: u8, b: u8) -> Rgba {
    Rgba { r, g, b, a: 255 }
}

#[test]
fn filled_canvas_holds_the_color_everywhere() {
    let c = opaque(1, 2, 3);
    let canvas = filled(4, 3, c);
    assert_eq!(canvas.width, 4);
    assert_eq!(canvas.height, 3);
    assert_eq!(canvas.pixels.len(), 12);
    assert!(canvas.pixels.iter().all(|p| *p == c));
}

#[test]
fn composite_replaces_the_footprint_and_spares_the_rest() {
    let bg = opaque(10, 10, 10);
    let fg = opaque(200, 100, 50);
    let mut canvas = filled(4, 4, bg);
    let layer = Raster { width: 2, height: 2, pixels: vec![fg; 4] };
    canvas.composite_over(&layer, 1, 1).unwrap();
    for y in 0u32..4 {
        for x in 0u32..4 {
            let got = canvas.pixels[(y * 4 + x) as usize];
            if (1..3).contains(&x) && (1..3).contains(&y) {
                assert_eq!(got, fg);
            } else {
                assert_eq!(got, bg);
            }
        }
    }
}

#[test]
fn composite_blends_partial_alpha() {
    let bg = opaque(100, 100, 100);
    // premultiplied half-transparent white-ish pixel
    let fg = Rgba { r: 128, g: 128, b: 128, a: 128 };
    let mut canvas = filled(1, 1, bg);
    let layer = Raster { width: 1, height: 1, pixels: vec![fg] };
    canvas.composite_over(&layer, 0, 0).unwrap();
    // each channel: 128 + 100 * (255 - 128) / 255 = 128 + 49
    assert_eq!(canvas.pixels[0], Rgba { r: 177, g: 177, b: 177, a: 255 });
}

#[test]
fn composite_out_of_bounds_is_rejected_and_leaves_the_canvas() {
    let bg = opaque(9, 9, 9);
    let mut canvas = filled(4, 4, bg);
    let layer = Raster { width: 3, height: 3, pixels: vec![opaque(1, 1, 1); 9] };
    let r = canvas.composite_over(&layer, 2, 2);
    assert!(matches!(r, Err(ItemError::Composite)));
    assert!(canvas.pixels.iter().all(|p| *p == bg));
}

#[test]
fn resample_keeps_a_same_size_buffer() {
    let pixels: Vec<Rgba> = (0u8..4).map(|i| opaque(i, i, i)).collect();
    let src = Raster { width: 2, height: 2, pixels: pixels.clone() };
    let out = resample(&src, 2, 2);
    assert_eq!(out.pixels, pixels);
}

#[test]
fn resample_stretches_a_single_pixel() {
    let src = Raster { width: 1, height: 1, pixels: vec![opaque(7, 8, 9)] };
    let out = resample(&src, 3, 3);
    assert_eq!(out.width, 3);
    assert_eq!(out.height, 3);
    assert_eq!(out.pixels.len(), 9);
    assert!(out.pixels.iter().all(|p| *p == opaque(7, 8, 9)));
}

#[test]
fn resample_downscales_by_nearest_neighbour() {
    // a 4x1 strip; a 2x1 target takes sources at x = 0 and x = 2
    let strip: Vec<Rgba> = (0u8..4).map(|i| opaque(i * 10, 0, 0)).collect();
    let src = Raster { width: 4, height: 1, pixels: strip };
    let out = resample(&src, 2, 1);
    assert_eq!(out.pixels, vec![opaque(0, 0, 0), opaque(20, 0, 0)]);
}
