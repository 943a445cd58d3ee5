use svg2png::color::{pastel_color, HUE_STEPS, PASTEL_HIGH, PASTEL_LOW};
use svg2png::pixel::Rgba;

#[test]
fn hue_zero_is_pastel_red() {
    let c = pastel_color(0);
    assert_eq!(c, Rgba { r: 239, g: 143, b: 143, a: 255 });
}

#[test]
fn hue_thirty_degrees_has_rising_green() {
    let c = pastel_color(30_000);
    assert_eq!(c, Rgba { r: 239, g: 191, b: 143, a: 255 });
}

#[test]
fn hue_one_twenty_degrees_is_pastel_green() {
    let c = pastel_color(120_000);
    assert_eq!(c, Rgba { r: 143, g: 239, b: 143, a: 255 });
}

#[test]
fn hue_two_forty_degrees_is_pastel_blue() {
    let c = pastel_color(240_000);
    assert_eq!(c, Rgba { r: 143, g: 143, b: 239, a: 255 });
}

#[test]
fn every_sampled_hue_stays_in_the_pastel_band_and_is_opaque() {
    let mut h: u32 = 0;
    while h < HUE_STEPS {
        let c = pastel_color(h);
        assert!(c.r >= PASTEL_LOW && c.r <= PASTEL_HIGH);
        assert!(c.g >= PASTEL_LOW && c.g <= PASTEL_HIGH);
        assert!(c.b >= PASTEL_LOW && c.b <= PASTEL_HIGH);
        assert_eq!(c.a, 255);
        h += 997;
    }
}

#[test]
fn sector_boundaries_are_continuous() {
    for sector in 1u32..6 {
        let at = pastel_color(sector * 60_000);
        let just_before = pastel_color(sector * 60_000 - 1);
        let dr = (at.r as i32 - just_before.r as i32).abs();
        let dg = (at.g as i32 - just_before.g as i32).abs();
        let db = (at.b as i32 - just_before.b as i32).abs();
        assert!(dr <= 1 && dg <= 1 && db <= 1);
    }
}
