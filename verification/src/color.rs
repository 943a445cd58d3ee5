use vstd::prelude::*;
use vstd::arithmetic::div_mod::lemma_div_is_ordered;
use vstd::arithmetic::mul::lemma_mul_inequality;
use crate::pixel::Rgba;

verus! {

/// Hue is measured in thousandths of a degree, so a full turn is 360000 steps
/// and a uniform draw over `[0, HUE_STEPS)` models a uniform hue in
/// `[0, 360)` degrees.
pub const HUE_STEPS: u32 = 360000;

/// Thousandths of a degree per 60-degree hue sector.
pub const SECTOR_STEPS: u32 = 60000;

/// The smallest channel byte of a pastel color: with the fixed saturation 3/4
/// and lightness 3/4, the hue/saturation/lightness model gives chroma 3/8 and
/// base value 9/16, and round(255 * 9/16) = 143.
pub const PASTEL_LOW: u8 = 143;

/// The largest channel byte of a pastel color: round(255 * 15/16) = 239.
pub const PASTEL_HIGH: u8 = 239;

/// The channel that rises linearly across a hue sector, scaled to a byte with
/// round-half-up: round(255 * (9/16 + (3/8) * (t / 60000))) for sector
/// position t, written as one exact integer division.
pub open spec fn sector_rise(t: int) -> int {
    (4606000 + 51 * t) / 32000
}

/// The channel that falls linearly across a hue sector.
pub open spec fn sector_fall(t: int) -> int {
    sector_rise(60000 - t)
}

/// The pastel background color for hue `h` in thousandths of a degree: the
/// hue/saturation/lightness color (h, 3/4, 3/4) converted to byte channels,
/// fully opaque. Within each 60-degree sector one channel sits at
/// `PASTEL_HIGH`, one at `PASTEL_LOW`, and one moves linearly between them.
pub open spec fn spec_pastel(h: int) -> Rgba {
    let sector = h / 60000;
    let t = h % 60000;
    if sector == 0 {
        Rgba { r: 239, g: sector_rise(t) as u8, b: 143, a: 255 }
    } else if sector == 1 {
        Rgba { r: sector_fall(t) as u8, g: 239, b: 143, a: 255 }
    } else if sector == 2 {
        Rgba { r: 143, g: 239, b: sector_rise(t) as u8, a: 255 }
    } else if sector == 3 {
        Rgba { r: 143, g: sector_fall(t) as u8, b: 239, a: 255 }
    } else if sector == 4 {
        Rgba { r: sector_rise(t) as u8, g: 143, b: 239, a: 255 }
    } else {
        Rgba { r: 239, g: 143, b: sector_fall(t) as u8, a: 255 }
    }
}

/// The moving channel stays within the pastel band on a whole sector.
pub proof fn lemma_sector_rise_bounds(t: int)
    requires
        0 <= t <= 60000,
    ensures
        143 <= sector_rise(t) <= 239,
{
    lemma_mul_inequality(0, t, 51);
    assert(51 * 0 <= 51 * t) by (nonlinear_arith)
        requires 0 <= t;
    assert(51 * t <= 51 * 60000) by (nonlinear_arith)
        requires t <= 60000;
    lemma_div_is_ordered(4606000, 4606000 + 51 * t, 32000);
    lemma_div_is_ordered(4606000 + 51 * t, (4606000 + 51 * 60000) as int, 32000);
    assert(4606000int / 32000 == 143);
    assert((4606000 + 51 * 60000int) / 32000 == 239);
}

/// Law: for every hue in `[0, 360)` degrees the generated background color is
/// fully opaque, premultiplied, and each channel byte lies within the pastel
/// band `[PASTEL_LOW, PASTEL_HIGH]` fixed by saturation 3/4 and lightness 3/4.
pub proof fn lemma_pastel_bounds(h: int)
    requires
        0 <= h < 360000,
    ensures
        spec_pastel(h).opaque(),
        spec_pastel(h).premultiplied(),
        143 <= spec_pastel(h).r <= 239,
        143 <= spec_pastel(h).g <= 239,
        143 <= spec_pastel(h).b <= 239,
{
    let t = h % 60000;
    vstd::arithmetic::div_mod::lemma_mod_bound(h, 60000);
    lemma_sector_rise_bounds(t);
    lemma_sector_rise_bounds(60000 - t);
    lemma_div_is_ordered(0, h, 60000);
    lemma_div_is_ordered(h, 359999, 60000);
    assert(359999int / 60000 == 5);
}

/// The rising channel in executable arithmetic.
fn rise_channel(t: u32) -> (r: u8)
    requires
        t <= 60000,
    ensures
        r as int == sector_rise(t as int),
{
    proof {
        lemma_sector_rise_bounds(t as int);
    }
    ((4606000u64 + 51u64 * (t as u64)) / 32000u64) as u8
}

/// Color Generator core: the pastel background color for one hue draw, given
/// in thousandths of a degree. Saturation and lightness are the fixed pastel
/// parameters 3/4 and 3/4; the result is fully opaque.
pub fn pastel_color(hue: u32) -> (c: Rgba)
    requires
        hue < HUE_STEPS,
    ensures
        c == spec_pastel(hue as int),
        c.opaque(),
        c.premultiplied(),
{
    proof {
        lemma_pastel_bounds(hue as int);
    }
    let sector: u32 = hue / SECTOR_STEPS;
    let t: u32 = hue % SECTOR_STEPS;
    if sector == 0 {
        Rgba { r: 239, g: rise_channel(t), b: 143, a: 255 }
    } else if sector == 1 {
        Rgba { r: rise_channel(SECTOR_STEPS - t), g: 239, b: 143, a: 255 }
    } else if sector == 2 {
        Rgba { r: 143, g: 239, b: rise_channel(t), a: 255 }
    } else if sector == 3 {
        Rgba { r: 143, g: rise_channel(SECTOR_STEPS - t), b: 239, a: 255 }
    } else if sector == 4 {
        Rgba { r: rise_channel(t), g: 143, b: 239, a: 255 }
    } else {
        Rgba { r: 239, g: 143, b: rise_channel(SECTOR_STEPS - t), a: 255 }
    }
}

} // verus!
