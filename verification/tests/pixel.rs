use svg2png::pixel::{over, Rgba};

#[test]
fn opaque_source_replaces_destination() {
    let s = Rgba { r: 10, g: 20, b: 30, a: 255 };
    let d = Rgba { r: 200, g: 100, b: 50, a: 255 };
    assert_eq!(over(s, d), s);
}

#[test]
fn transparent_source_keeps_destination() {
    let s = Rgba { r: 0, g: 0, b: 0, a: 0 };
    let d = Rgba { r: 200, g: 100, b: 50, a: 255 };
    assert_eq!(over(s, d), d);
}

#[test]
fn half_covering_source_blends() {
    let s = Rgba { r: 100, g: 50, b: 25, a: 128 };
    let d = Rgba { r: 239, g: 143, b: 143, a: 255 };
    // each channel: source + destination * (255 - 128) / 255, floored
    assert_eq!(over(s, d), Rgba { r: 219, g: 121, b: 96, a: 255 });
}

#[test]
fn blending_over_opaque_stays_opaque() {
    let s = Rgba { r: 7, g: 9, b: 11, a: 77 };
    let d = Rgba { r: 150, g: 160, b: 170, a: 255 };
    assert_eq!(over(s, d).a, 255);
}
